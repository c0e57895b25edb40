//! The closest-hit reducer shared by the composite shapes and the scene:
//! children are tested in order, each bounded by the nearest hit found so far.

use crate::hittable::{HitRecord, Hittable};
use crate::ray::Ray;
use vstd::prelude::*;

verus! {

/// The hit reported by scanning `items` in order, each test bounded above by
/// the nearest hit found before it.
pub open spec fn closest_hit<T: Hittable>(items: Seq<T>, ray: Ray, t_min: int, t_max: int) -> Option<
    HitRecord,
>
    decreases items.len(),
{
    if items.len() == 0 {
        None
    } else {
        let prev = closest_hit(items.drop_last(), ray, t_min, t_max);
        let bound = match prev {
            Some(h) => h.t.unwrap() as int,
            None => t_max,
        };
        match items.last().hit_spec(ray, t_min, bound) {
            Some(h) => Some(h),
            None => prev,
        }
    }
}

pub open spec fn all_well_formed<T: Hittable>(items: Seq<T>) -> bool {
    forall|i: int| 0 <= i < items.len() ==> #[trigger] items[i].well_formed()
}

/// Distance of a reported hit.
pub open spec fn hit_t(h: Option<HitRecord>) -> int {
    h.unwrap().t.unwrap() as int
}

/// The closest-hit law: the scan reports a hit exactly when some child is
/// hit within range; the reported hit is filled in, in range and facing the
/// ray; it is no farther than any child's hit; and it is the hit of one
/// child under a range no wider than the given one.
pub proof fn lemma_closest_hit<T: Hittable>(items: Seq<T>, ray: Ray, t_min: int, t_max: int)
    requires
        all_well_formed(items),
    ensures
        closest_hit(items, ray, t_min, t_max) is Some <==> exists|i: int|
            0 <= i < items.len() && (#[trigger] items[i].hit_spec(ray, t_min, t_max)) is Some,
        closest_hit(items, ray, t_min, t_max) is Some ==> closest_hit(
            items,
            ray,
            t_min,
            t_max,
        ).unwrap().reports_hit(ray, t_min, t_max),
        forall|i: int|
            0 <= i < items.len() && (#[trigger] items[i].hit_spec(ray, t_min, t_max)) is Some
                ==> hit_t(closest_hit(items, ray, t_min, t_max)) <= hit_t(
                items[i].hit_spec(ray, t_min, t_max),
            ),
        closest_hit(items, ray, t_min, t_max) is Some ==> exists|i: int, b: int|
            0 <= i < items.len() && b <= t_max && (#[trigger] items[i].hit_spec(ray, t_min, b))
                == closest_hit(items, ray, t_min, t_max),
    decreases items.len(),
{
    if items.len() > 0 {
        let s = items.drop_last();
        let x = items.last();
        let n = items.len() - 1;
        assert(all_well_formed(s)) by {
            assert forall|i: int| 0 <= i < s.len() implies #[trigger] s[i].well_formed() by {
                assert(s[i] == items[i]);
            }
        }
        assert(x == items[n]);
        lemma_closest_hit(s, ray, t_min, t_max);
        let prev = closest_hit(s, ray, t_min, t_max);
        let bound = match prev {
            Some(h) => h.t.unwrap() as int,
            None => t_max,
        };
        assert(bound <= t_max);
        let r = closest_hit(items, ray, t_min, t_max);
        assert forall|i: int| 0 <= i < n implies #[trigger] items[i] == s[i] by {}
        match x.hit_spec(ray, t_min, bound) {
            Some(h) => {
                x.lemma_hit_in_range(ray, t_min, bound);
                x.lemma_widen(ray, t_min, bound, t_max);
                let hx = x.hit_spec(ray, t_min, t_max);
                if hit_t(hx) < bound {
                    x.lemma_narrow(ray, t_min, t_max, bound);
                }
                assert(items[n].hit_spec(ray, t_min, bound) == r);
                assert(items[n].hit_spec(ray, t_min, t_max) is Some);
            },
            None => {
                if x.hit_spec(ray, t_min, t_max) is Some {
                    let hx = x.hit_spec(ray, t_min, t_max);
                    if hit_t(hx) < bound {
                        x.lemma_narrow(ray, t_min, t_max, bound);
                    }
                    assert(prev is Some);
                }
                if r is Some {
                    let (i, b) = choose|i: int, b: int|
                        0 <= i < s.len() && b <= t_max && (#[trigger] s[i].hit_spec(ray, t_min, b))
                            == prev;
                    assert(items[i].hit_spec(ray, t_min, b) == r);
                }
            },
        }
    }
}

/// Lowering `t_max` to `bound` either keeps the scan's result, or loses it
/// when it lay at or beyond `bound`.
proof fn lemma_closest_bound<T: Hittable>(items: Seq<T>, ray: Ray, t_min: int, t_max: int, bound: int)
    requires
        all_well_formed(items),
        bound <= t_max,
    ensures
        closest_hit(items, ray, t_min, bound) == closest_hit(items, ray, t_min, t_max) || (
        closest_hit(items, ray, t_min, bound) is None && closest_hit(items, ray, t_min, t_max) is Some
            && hit_t(closest_hit(items, ray, t_min, t_max)) >= bound),
    decreases items.len(),
{
    if items.len() > 0 {
        let s = items.drop_last();
        let x = items.last();
        assert(all_well_formed(s)) by {
            assert forall|i: int| 0 <= i < s.len() implies #[trigger] s[i].well_formed() by {
                assert(s[i] == items[i]);
            }
        }
        assert(x == items[items.len() - 1]);
        lemma_closest_bound(s, ray, t_min, t_max, bound);
        let wide = closest_hit(s, ray, t_min, t_max);
        let narrow = closest_hit(s, ray, t_min, bound);
        let wb = match wide {
            Some(h) => h.t.unwrap() as int,
            None => t_max,
        };
        let nb = match narrow {
            Some(h) => h.t.unwrap() as int,
            None => bound,
        };
        if wide != narrow {
            assert(nb <= wb);
        }
        if nb <= wb {
            if x.hit_spec(ray, t_min, wb) is Some {
                let g = x.hit_spec(ray, t_min, wb);
                if hit_t(g) < nb {
                    x.lemma_narrow(ray, t_min, wb, nb);
                } else if x.hit_spec(ray, t_min, nb) is Some {
                    x.lemma_widen(ray, t_min, nb, wb);
                    x.lemma_hit_in_range(ray, t_min, nb);
                }
            } else if x.hit_spec(ray, t_min, nb) is Some {
                x.lemma_widen(ray, t_min, nb, wb);
            }
        }
    }
}

/// Lowering `t_max` to any value above the scan's hit keeps that hit.
pub proof fn lemma_closest_narrow<T: Hittable>(items: Seq<T>, ray: Ray, t_min: int, t_max: int, bound: int)
    requires
        all_well_formed(items),
        closest_hit(items, ray, t_min, t_max) is Some,
        hit_t(closest_hit(items, ray, t_min, t_max)) < bound <= t_max,
    ensures
        closest_hit(items, ray, t_min, bound) == closest_hit(items, ray, t_min, t_max),
{
    lemma_closest_bound(items, ray, t_min, t_max, bound);
}

/// Raising `t_max` keeps the scan's hit, at the same distance or nearer.
pub proof fn lemma_closest_widen<T: Hittable>(items: Seq<T>, ray: Ray, t_min: int, bound: int, t_max: int)
    requires
        all_well_formed(items),
        bound <= t_max,
        closest_hit(items, ray, t_min, bound) is Some,
    ensures
        closest_hit(items, ray, t_min, t_max) is Some,
        hit_t(closest_hit(items, ray, t_min, t_max)) <= hit_t(closest_hit(items, ray, t_min, bound)),
{
    lemma_closest_hit(items, ray, t_min, bound);
    lemma_closest_hit(items, ray, t_min, t_max);
    let (i, b) = choose|i: int, b: int|
        0 <= i < items.len() && b <= bound && (#[trigger] items[i].hit_spec(ray, t_min, b))
            == closest_hit(items, ray, t_min, bound);
    items[i].lemma_widen(ray, t_min, b, t_max);
}

/// When one child's hit is strictly nearer than every other child's, the
/// scan reports exactly that child's hit, material included.
pub proof fn lemma_closest_is_nearest<T: Hittable>(items: Seq<T>, ray: Ray, t_min: int, t_max: int, i: int)
    requires
        all_well_formed(items),
        0 <= i < items.len(),
        items[i].hit_spec(ray, t_min, t_max) is Some,
        forall|j: int|
            0 <= j < items.len() && j != i && (#[trigger] items[j].hit_spec(ray, t_min, t_max)) is Some
                ==> hit_t(items[i].hit_spec(ray, t_min, t_max)) < hit_t(items[j].hit_spec(ray, t_min, t_max)),
    ensures
        closest_hit(items, ray, t_min, t_max) == items[i].hit_spec(ray, t_min, t_max),
{
    lemma_closest_hit(items, ray, t_min, t_max);
    let r = closest_hit(items, ray, t_min, t_max);
    let (j, b) = choose|j: int, b: int|
        0 <= j < items.len() && b <= t_max && (#[trigger] items[j].hit_spec(ray, t_min, b)) == r;
    items[j].lemma_widen(ray, t_min, b, t_max);
    items[j].lemma_hit_in_range(ray, t_min, b);
    assert(j == i);
    items[i].lemma_narrow(ray, t_min, t_max, b);
}

/// Tests the invariant of every child.
pub fn all_are_well_formed<T: Hittable>(items: &Vec<T>) -> (b: bool)
    ensures
        b == all_well_formed(items@),
{
    let mut i: usize = 0;
    while i < items.len()
        invariant
            i <= items@.len(),
            forall|j: int| 0 <= j < i ==> #[trigger] items@[j].well_formed(),
        decreases items@.len() - i,
    {
        if !items[i].is_well_formed() {
            return false;
        }
        i = i + 1;
    }
    true
}

/// Tests every child in order and reports the nearest hit within range.
pub fn hit_closest<T: Hittable>(items: &Vec<T>, r: Ray, t_min: i64, t_max: i64, rec: &mut HitRecord) -> (b: bool)
    requires
        all_well_formed(items@),
    ensures
        b == closest_hit(items@, r, t_min as int, t_max as int) is Some,
        b ==> *final(rec) == closest_hit(items@, r, t_min as int, t_max as int).unwrap(),
        b ==> final(rec).reports_hit(r, t_min as int, t_max as int),
        !b ==> *final(rec) == *old(rec),
{
    let ghost initial = *rec;
    let mut hit_anything = false;
    let mut closest = t_max;
    let mut found = *rec;
    let mut i: usize = 0;
    while i < items.len()
        invariant
            i <= items.len(),
            all_well_formed(items@),
            closest <= t_max,
            closest_hit(items@.take(i as int), r, t_min as int, t_max as int) == (if hit_anything {
                Some(found)
            } else {
                None::<HitRecord>
            }),
            hit_anything ==> found.t == Some(closest) && found.reports_hit(r, t_min as int, t_max as int),
            !hit_anything ==> closest == t_max && found == initial,
        decreases items.len() - i,
    {
        proof {
            assert(items@.take(i as int + 1).drop_last() =~= items@.take(i as int));
            assert(items@.take(i as int + 1).last() == items@[i as int]);
        }
        if items[i].hit(r, t_min, closest, &mut found) {
            hit_anything = true;
            closest = found.t.unwrap();
        }
        i = i + 1;
    }
    proof {
        assert(items@.take(items.len() as int) =~= items@);
    }
    *rec = found;
    hit_anything
}

} // verus!
