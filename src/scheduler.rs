//! Splitting the pixel grid into contiguous row bands, one per worker, and
//! folding the workers' results back into a framebuffer.

use vstd::arithmetic::div_mod::{lemma_fundamental_div_mod_converse, lemma_div_is_ordered, lemma_fundamental_div_mod};
use vstd::prelude::*;

verus! {

/// One pixel to render, and its colour once rendered.
#[derive(Debug, Clone)]
pub struct Work {
    pub x: usize,
    pub y: usize,
    pub colour: Option<Vec<u8>>,
}

/// Rows per band: `⌈height / workers⌉`.
pub open spec fn band_height(height: int, workers: int) -> int {
    (height + workers - 1) / workers
}

/// First row of band `i`.
pub open spec fn band_start(height: int, workers: int, i: int) -> int {
    i * band_height(height, workers)
}

/// Rows in band `i`; the last bands may be short or empty.
pub open spec fn band_rows(height: int, workers: int, i: int) -> int {
    let end = (i + 1) * band_height(height, workers);
    let stop = if end < height {
        end
    } else {
        height
    };
    if stop > band_start(height, workers, i) {
        stop - band_start(height, workers, i)
    } else {
        0
    }
}

/// Band `i` lists its rows' pixels in row-major order, none rendered yet.
pub open spec fn is_band(band: Seq<Work>, width: int, height: int, workers: int, i: int) -> bool {
    &&& band.len() == width * band_rows(height, workers, i)
    &&& forall|k: int|
        0 <= k < band.len() ==> {
            &&& (#[trigger] band[k]).x == k % width
            &&& (band[k].y as int) == band_start(height, workers, i) + k / width
            &&& band[k].colour is None
        }
}

/// `list` holds one band per worker.
pub open spec fn is_work_list(list: Seq<Vec<Work>>, width: int, height: int, workers: int) -> bool {
    &&& list.len() == workers
    &&& forall|i: int| 0 <= i < workers ==> is_band(#[trigger] list[i]@, width, height, workers, i)
}

proof fn lemma_band_height(height: int, workers: int)
    requires
        height >= 0,
        workers > 0,
    ensures
        band_height(height, workers) >= 0,
        band_height(height, workers) * workers >= height,
        height > 0 ==> band_height(height, workers) >= 1,
{
    let r = band_height(height, workers);
    lemma_fundamental_div_mod(height + workers - 1, workers);
    let m = (height + workers - 1) % workers;
    assert(0 <= m < workers);
    assert(height + workers - 1 == workers * r + m);
    if r < 0 {
        assert(workers * r <= -workers) by (nonlinear_arith)
            requires
                r < 0,
                workers > 0,
        ;
    }
    assert(r * workers == workers * r) by (nonlinear_arith);
    if r == 0 {
        assert(r * workers == 0) by (nonlinear_arith)
            requires
                r == 0,
        ;
    }
}

/// Where an entry of band `i` lies: its pixel is inside the grid, its band
/// is its row divided by the band height, and its index is fixed by its
/// row and column.
proof fn lemma_entry(band: Seq<Work>, width: int, height: int, workers: int, i: int, k: int)
    requires
        is_band(band, width, height, workers, i),
        width >= 0,
        height >= 0,
        workers > 0,
        0 <= i < workers,
        0 <= k < band.len(),
    ensures
        0 <= (band[k].x as int) < width,
        0 <= (band[k].y as int) < height,
        i == (band[k].y as int) / band_height(height, workers),
        k == ((band[k].y as int) % band_height(height, workers)) * width + (band[k].x as int),
{
    let rows = band_height(height, workers);
    let rr = band_rows(height, workers, i);
    assert(rr > 0 && width > 0) by (nonlinear_arith)
        requires
            0 <= k < width * rr,
            width >= 0,
            rr >= 0,
    ;
    lemma_fundamental_div_mod(k, width);
    let q = k / width;
    let x = k % width;
    assert(q < rr) by (nonlinear_arith)
        requires
            k == width * q + x,
            0 <= x < width,
            k < width * rr,
    ;
    assert(rr <= rows) by (nonlinear_arith)
        requires
            rr == band_rows(height, workers, i),
            rr > 0,
            band_rows(height, workers, i) <= (i + 1) * rows - i * rows,
    ;
    assert(q >= 0) by (nonlinear_arith)
        requires
            k == width * q + x,
            0 <= x < width,
            k >= 0,
    ;
    let y = i * rows + q;
    assert(y == (band[k].y as int));
    lemma_fundamental_div_mod_converse(y, rows, i, q);
    assert(k == q * width + x) by (nonlinear_arith)
        requires
            k == width * q + x,
    ;
}

/// Pixel `(x, y)` of the grid is entry `(y % rows) * width + x` of band
/// `y / rows`, where `rows` is the band height.
proof fn lemma_pixel(list: Seq<Vec<Work>>, width: int, height: int, workers: int, x: int, y: int)
    requires
        is_work_list(list, width, height, workers),
        width >= 0,
        height >= 0,
        workers > 0,
        0 <= x < width,
        0 <= y < height,
    ensures
        0 <= y / band_height(height, workers) < workers,
        0 <= (y % band_height(height, workers)) * width + x < list[y / band_height(height, workers)]@.len(),
        (list[y / band_height(height, workers)]@[(y % band_height(height, workers)) * width + x].x as int) == x,
        (list[y / band_height(height, workers)]@[(y % band_height(height, workers)) * width + x].y as int) == y,
{
    let rows = band_height(height, workers);
    lemma_band_height(height, workers);
    lemma_fundamental_div_mod(y, rows);
    let i = y / rows;
    let q = y % rows;
    assert(0 <= q < rows);
    assert(i >= 0) by (nonlinear_arith)
        requires
            y == rows * i + q,
            0 <= q < rows,
            y >= 0,
    ;
    assert(i < workers) by (nonlinear_arith)
        requires
            y == rows * i + q,
            0 <= q,
            y < height,
            rows * workers >= height,
            rows > 0,
    ;
    assert(i * rows == rows * i) by (nonlinear_arith);
    assert((i + 1) * rows == i * rows + rows) by (nonlinear_arith);
    let rr = band_rows(height, workers, i);
    assert(q < rr);
    let k = q * width + x;
    assert(k < width * rr) by (nonlinear_arith)
        requires
            k == q * width + x,
            0 <= x < width,
            q + 1 <= rr,
    ;
    assert(k >= 0) by (nonlinear_arith)
        requires
            k == q * width + x,
            q >= 0,
            x >= 0,
            width >= 0,
    ;
    let band = list[i]@;
    assert(is_band(band, width, height, workers, i));
    lemma_fundamental_div_mod_converse(k, width, q, x);
}

/// Some band holds pixel `(x, y)`.
pub open spec fn assigned(list: Seq<Vec<Work>>, x: int, y: int) -> bool {
    exists|i: int, k: int|
        0 <= i < list.len() && 0 <= k < list[i]@.len() && (#[trigger] list[i]@[k]).x == x && (list[i]@[k].y as int)
            == y
}

/// The bands partition the grid: every entry names a pixel of the grid;
/// every pixel is named by an entry; and an entry's band and index are
/// fixed by its pixel, so no pixel is named twice.
pub proof fn lemma_work_list_partition(list: Seq<Vec<Work>>, width: int, height: int, workers: int)
    requires
        is_work_list(list, width, height, workers),
        width >= 0,
        height >= 0,
        workers > 0,
    ensures
        forall|i: int, k: int|
            0 <= i < workers && 0 <= k < list[i]@.len() ==> {
                &&& 0 <= (#[trigger] list[i]@[k]).x < width
                &&& 0 <= (list[i]@[k].y as int) < height
                &&& i == (list[i]@[k].y as int) / band_height(height, workers)
                &&& k == ((list[i]@[k].y as int) % band_height(height, workers)) * width + (list[i]@[k].x as int)
            },
        forall|x: int, y: int| 0 <= x < width && 0 <= y < height ==> #[trigger] assigned(list, x, y),
{
    assert forall|i: int, k: int| 0 <= i < workers && 0 <= k < list[i]@.len() implies {
        &&& 0 <= (#[trigger] list[i]@[k]).x < width
        &&& 0 <= (list[i]@[k].y as int) < height
        &&& i == (list[i]@[k].y as int) / band_height(height, workers)
        &&& k == ((list[i]@[k].y as int) % band_height(height, workers)) * width + (list[i]@[k].x as int)
    } by {
        lemma_entry(list[i]@, width, height, workers, i, k);
    }
    assert forall|x: int, y: int| 0 <= x < width && 0 <= y < height implies #[trigger] assigned(list, x, y) by {
        lemma_pixel(list, width, height, workers, x, y);
        let i = y / band_height(height, workers);
        let k = (y % band_height(height, workers)) * width + x;
        assert((list[i]@[k].x as int) == x);
    }
}

/// Position of a pixel in a row-major framebuffer `width` pixels wide.
pub open spec fn pixel_slot(x: int, y: int, width: int) -> int {
    x + y * width
}

/// Entries of the bands land on distinct framebuffer positions: two entries
/// with the same position are the same entry of the same band. So merging
/// the bands, in any order, writes each pixel once.
pub proof fn lemma_work_list_slots_distinct(
    list: Seq<Vec<Work>>,
    width: int,
    height: int,
    workers: int,
    i: int,
    k: int,
    j: int,
    l: int,
)
    requires
        is_work_list(list, width, height, workers),
        width >= 0,
        height >= 0,
        workers > 0,
        0 <= i < workers,
        0 <= j < workers,
        0 <= k < list[i]@.len(),
        0 <= l < list[j]@.len(),
        pixel_slot(list[i]@[k].x as int, list[i]@[k].y as int, width) == pixel_slot(
            list[j]@[l].x as int,
            list[j]@[l].y as int,
            width,
        ),
    ensures
        i == j,
        k == l,
{
    lemma_entry(list[i]@, width, height, workers, i, k);
    lemma_entry(list[j]@, width, height, workers, j, l);
    let (x1, y1) = (list[i]@[k].x as int, list[i]@[k].y as int);
    let (x2, y2) = (list[j]@[l].x as int, list[j]@[l].y as int);
    assert(x1 + y1 * width == y1 * width + x1);
    assert(x2 + y2 * width == y2 * width + x2);
    lemma_fundamental_div_mod_converse(x1 + y1 * width, width, y1, x1);
    lemma_fundamental_div_mod_converse(x2 + y2 * width, width, y2, x2);
}

/// Splits a `image_width × image_height` grid into `num_cpu` bands of
/// `⌈image_height / num_cpu⌉` contiguous rows each.
pub fn create_work_list(image_width: i32, image_height: i32, num_cpu: usize) -> (r: Vec<Vec<Work>>)
    requires
        image_width >= 0,
        image_height >= 0,
        num_cpu > 0,
    ensures
        is_work_list(r@, image_width as int, image_height as int, num_cpu as int),
{
    let width = image_width as usize;
    let height = image_height as usize;
    let ghost (w, h, n) = (width as int, height as int, num_cpu as int);
    let rows: u128 = (height as u128 + num_cpu as u128 - 1) / (num_cpu as u128);
    proof {
        assert(h <= h * n) by (nonlinear_arith)
            requires
                h >= 0,
                n >= 1,
        ;
        lemma_div_is_ordered(h + n - 1, h * n + n - 1, n);
        assert((h * n + n - 1) == h * n + (n - 1));
        lemma_fundamental_div_mod_converse(h * n + n - 1, n, h, n - 1);
    }
    let mut work_list: Vec<Vec<Work>> = Vec::new();
    let mut i: usize = 0;
    while i < num_cpu
        invariant
            i <= num_cpu,
            w == width,
            h == height,
            n == num_cpu,
            h <= 0x7fff_ffff,
            rows == band_height(h, n),
            rows <= h + 1,
            work_list@.len() == i,
            forall|j: int| 0 <= j < i ==> is_band(#[trigger] work_list@[j]@, w, h, n, j),
        decreases num_cpu - i,
    {
        proof {
            assert(i * rows <= 0x1_0000_0000_0000_0000 * 0x1_0000_0000) by (nonlinear_arith)
                requires
                    0 <= i <= 0x1_0000_0000_0000_0000,
                    0 <= rows <= 0x1_0000_0000,
            ;
            assert((i + 1) * rows == i * rows + rows) by (nonlinear_arith);
        }
        let first: u128 = i as u128 * rows;
        let last: u128 = first + rows;
        let start: usize = if first < height as u128 {
            first as usize
        } else {
            height
        };
        let end: usize = if last < height as u128 {
            last as usize
        } else {
            height
        };
        let mut band: Vec<Work> = Vec::new();
        let mut y = start;
        while y < end
            invariant
                start <= y <= end,
                end <= height,
                w == width,
                band@.len() == (y - start) * w,
                forall|k: int|
                    0 <= k < band@.len() ==> {
                        &&& (#[trigger] band@[k]).x == k % w
                        &&& band@[k].y == start + k / w
                        &&& band@[k].colour is None
                    },
            decreases end - y,
        {
            let mut x: usize = 0;
            while x < width
                invariant
                    x <= width,
                    start <= y < end,
                    w == width,
                    band@.len() == (y - start) * w + x,
                    forall|k: int|
                        0 <= k < band@.len() ==> {
                            &&& (#[trigger] band@[k]).x == k % w
                            &&& band@[k].y == start + k / w
                            &&& band@[k].colour is None
                        },
                decreases width - x,
            {
                proof {
                    lemma_fundamental_div_mod_converse((y - start) * w + x, w, y - start, x as int);
                }
                band.push(Work { x, y, colour: None });
                x = x + 1;
            }
            proof {
                assert((y - start) * w + w == (y + 1 - start) * w) by (nonlinear_arith);
            }
            y = y + 1;
        }
        proof {
            let rr = band_rows(h, n, i as int);
            assert(rr == end - start);
            assert(band@.len() == w * rr) by (nonlinear_arith)
                requires
                    band@.len() == (end - start) * w,
                    rr == end - start,
            ;
            assert(start == band_start(h, n, i as int) || rr == 0);
        }
        let ghost before = work_list@;
        work_list.push(band);
        proof {
            assert forall|j: int| 0 <= j < i + 1 implies is_band(#[trigger] work_list@[j]@, w, h, n, j) by {
                if j < i {
                    assert(work_list@[j] == before[j]);
                }
            }
        }
        i = i + 1;
    }
    work_list
}

} // verus!
