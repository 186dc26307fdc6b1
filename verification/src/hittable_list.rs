//! Scenes: lists of things a ray can hit.

use crate::fixed::Fixed;
use crate::hittable::{HitRecord, Hittable};
use crate::interval::Interval;
use crate::ray::Ray;
use vstd::prelude::*;

verus! {

/// A list of objects, hit where the nearest of them is hit.
pub struct HittableList<H: Hittable> {
    pub objects: Vec<H>,
}

/// The upper end of the interval that is left to search once `best` is the
/// hit found so far: its ray parameter, or the upper end of `ray_t` where
/// nothing was hit yet.
pub open spec fn spec_closest_so_far(best: Option<HitRecord>, ray_t: Interval) -> Fixed {
    match best {
        Some(rec) => rec.t,
        None => ray_t.max,
    }
}

/// The hit that a scan of `objects` from first to last ends with: each object
/// is asked for a hit nearer than the nearest found before it.
pub open spec fn spec_hit_among<H: Hittable>(objects: Seq<H>, r: Ray, ray_t: Interval) -> Option<
    HitRecord,
>
    decreases objects.len(),
{
    if objects.len() == 0 {
        None
    } else {
        let before = spec_hit_among(objects.drop_last(), r, ray_t);
        let left = Interval { min: ray_t.min, max: spec_closest_so_far(before, ray_t) };
        match objects.last().spec_hit(r, left) {
            Some(rec) => Some(rec),
            None => before,
        }
    }
}

/// Whether `rec` is the hit of `r` inside `ray_t` on the object at `index`,
/// no object is hit nearer, and no earlier object is hit as near.
pub open spec fn is_first_nearest<H: Hittable>(
    objects: Seq<H>,
    r: Ray,
    ray_t: Interval,
    index: int,
    rec: HitRecord,
) -> bool {
    &&& 0 <= index < objects.len()
    &&& objects[index].spec_hit(r, ray_t) == Some(rec)
    &&& forall|j: int|
        0 <= j < objects.len() ==> (#[trigger] objects[j].spec_hit(r, ray_t) matches Some(other)
            ==> rec.t@ <= other.t@)
    &&& forall|j: int|
        0 <= j < index ==> (#[trigger] objects[j].spec_hit(r, ray_t) matches Some(other) ==> rec.t@
            < other.t@)
}

/// Whether `res` is the nearest hit of `r` inside `ray_t` on any of
/// `objects`: none where none of them is hit, and else the hit with the
/// least ray parameter, on the first object that has it.
pub open spec fn is_nearest_hit<H: Hittable>(
    objects: Seq<H>,
    r: Ray,
    ray_t: Interval,
    res: Option<HitRecord>,
) -> bool {
    match res {
        Some(rec) => exists|index: int| is_first_nearest(objects, r, ray_t, index, rec),
        None => forall|j: int|
            0 <= j < objects.len() ==> #[trigger] objects[j].spec_hit(r, ray_t) is None,
    }
}

/// A scan ends with the nearest hit.
pub proof fn lemma_scan_finds_nearest<H: Hittable>(objects: Seq<H>, r: Ray, ray_t: Interval)
    ensures
        is_nearest_hit(objects, r, ray_t, spec_hit_among(objects, r, ray_t)),
    decreases objects.len(),
{
    if objects.len() > 0 {
        let prefix = objects.drop_last();
        let last = objects.last();
        let n = prefix.len() as int;
        lemma_scan_finds_nearest(prefix, r, ray_t);
        let before = spec_hit_among(prefix, r, ray_t);
        let closest = spec_closest_so_far(before, ray_t);
        let whole = last.spec_hit(r, ray_t);
        assert forall|j: int| 0 <= j < n implies prefix[j] == objects[j] by {}
        if let Some(b) = before {
            let i = choose|i: int| is_first_nearest(prefix, r, ray_t, i, b);
            assert(prefix[i] == objects[i]);
            objects[i].lemma_hit_inside(r, ray_t);
        }
        last.lemma_hit_inside(r, ray_t);
        last.lemma_hit_narrowed(r, ray_t, closest);
        match last.spec_hit(r, Interval { min: ray_t.min, max: closest }) {
            Some(rec) => {
                assert(objects[n] == last);
                assert(is_first_nearest(objects, r, ray_t, n, rec)) by {
                    assert forall|j: int| 0 <= j < objects.len() implies (
                    #[trigger] objects[j].spec_hit(r, ray_t) matches Some(other) ==> rec.t@
                        <= other.t@) by {
                        if j < n {
                            assert(prefix[j] == objects[j]);
                        }
                    }
                    assert forall|j: int| 0 <= j < n implies (#[trigger] objects[j].spec_hit(
                        r,
                        ray_t,
                    ) matches Some(other) ==> rec.t@ < other.t@) by {
                        assert(prefix[j] == objects[j]);
                    }
                }
            },
            None => {
                match before {
                    Some(b) => {
                        let i = choose|i: int| is_first_nearest(prefix, r, ray_t, i, b);
                        assert(is_first_nearest(objects, r, ray_t, i, b)) by {
                            assert(prefix[i] == objects[i]);
                            assert forall|j: int| 0 <= j < objects.len() implies (
                            #[trigger] objects[j].spec_hit(r, ray_t) matches Some(other) ==> b.t@
                                <= other.t@) by {
                                if j < n {
                                    assert(prefix[j] == objects[j]);
                                } else {
                                    assert(objects[j] == last);
                                }
                            }
                            assert forall|j: int| 0 <= j < i implies (
                            #[trigger] objects[j].spec_hit(r, ray_t) matches Some(other) ==> b.t@
                                < other.t@) by {
                                assert(prefix[j] == objects[j]);
                            }
                        }
                    },
                    None => {
                        assert forall|j: int| 0 <= j < objects.len() implies (
                        #[trigger] objects[j].spec_hit(r, ray_t)) is None by {
                            if j < n {
                                assert(prefix[j] == objects[j]);
                            } else {
                                assert(objects[j] == last);
                            }
                        }
                    },
                }
            },
        }
    }
}

/// A scan asked for hits below `closest` ends with what the scan of the whole
/// interval ends with where that lies below `closest`, and with nothing
/// where it does not.
pub proof fn lemma_scan_narrowed<H: Hittable>(
    objects: Seq<H>,
    r: Ray,
    ray_t: Interval,
    closest: Fixed,
)
    requires
        closest@ <= ray_t.max@,
    ensures
        spec_hit_among(objects, r, Interval { min: ray_t.min, max: closest }) == (
        match spec_hit_among(objects, r, ray_t) {
            Some(rec) => if rec.t@ < closest@ {
                Some(rec)
            } else {
                None
            },
            None => None,
        }),
    decreases objects.len(),
{
    if objects.len() > 0 {
        let prefix = objects.drop_last();
        let last = objects.last();
        let narrow = Interval { min: ray_t.min, max: closest };
        lemma_scan_narrowed(prefix, r, ray_t, closest);
        lemma_scan_finds_nearest(prefix, r, ray_t);
        let before = spec_hit_among(prefix, r, ray_t);
        let before_narrow = spec_hit_among(prefix, r, narrow);
        let left = spec_closest_so_far(before, ray_t);
        let left_narrow = spec_closest_so_far(before_narrow, narrow);
        if let Some(b) = before {
            let i = choose|i: int| is_first_nearest(prefix, r, ray_t, i, b);
            prefix[i].lemma_hit_inside(r, ray_t);
        }
        last.lemma_hit_narrowed(r, ray_t, left);
        last.lemma_hit_narrowed(r, ray_t, left_narrow);
        last.lemma_hit_inside(r, Interval { min: ray_t.min, max: left });
    }
}

/// A list without objects is never hit.
pub proof fn lemma_empty_list_is_never_hit<H: Hittable>(list: &HittableList<H>)
    requires
        list.objects@.len() == 0,
    ensures
        forall|r: Ray, ray_t: Interval| (#[trigger] list.spec_hit(r, ray_t)) is None,
{
}

/// The ray parameter of the nearest hit does not depend on the order of the
/// objects: two lists of the same objects are hit at the same ray parameter,
/// or both are missed.
pub proof fn lemma_nearest_in_any_order<H: Hittable>(
    first: Seq<H>,
    second: Seq<H>,
    r: Ray,
    ray_t: Interval,
)
    requires
        forall|i: int| 0 <= i < first.len() ==> second.contains(#[trigger] first[i]),
        forall|i: int| 0 <= i < second.len() ==> first.contains(#[trigger] second[i]),
    ensures
        match (spec_hit_among(first, r, ray_t), spec_hit_among(second, r, ray_t)) {
            (Some(a), Some(b)) => a.t@ == b.t@,
            (None, None) => true,
            _ => false,
        },
{
    lemma_scan_finds_nearest(first, r, ray_t);
    lemma_scan_finds_nearest(second, r, ray_t);
    lemma_found_in(first, second, r, ray_t);
    lemma_found_in(second, first, r, ray_t);
}

/// What is found nearest in one list is found no farther in any list that
/// holds the same objects.
proof fn lemma_found_in<H: Hittable>(first: Seq<H>, second: Seq<H>, r: Ray, ray_t: Interval)
    requires
        forall|i: int| 0 <= i < first.len() ==> second.contains(#[trigger] first[i]),
        is_nearest_hit(first, r, ray_t, spec_hit_among(first, r, ray_t)),
        is_nearest_hit(second, r, ray_t, spec_hit_among(second, r, ray_t)),
    ensures
        spec_hit_among(first, r, ray_t) matches Some(a) ==> (spec_hit_among(
            second,
            r,
            ray_t,
        ) matches Some(b) && b.t@ <= a.t@),
{
    if let Some(a) = spec_hit_among(first, r, ray_t) {
        let i = choose|i: int| is_first_nearest(first, r, ray_t, i, a);
        assert(second.contains(first[i]));
        let k = choose|k: int| 0 <= k < second.len() && second[k] == first[i];
        assert(second[k].spec_hit(r, ray_t) == Some(a));
    }
}

impl<H: Hittable> HittableList<H> {
    /// The empty list.
    pub fn new() -> (list: HittableList<H>)
        ensures
            list.objects@ == Seq::<H>::empty(),
    {
        HittableList { objects: Vec::new() }
    }

    /// Adds `object` at the end of the list.
    pub fn add(&mut self, object: H)
        ensures
            final(self).objects@ == old(self).objects@.push(object),
    {
        self.objects.push(object);
    }

    /// Removes every object from the list.
    pub fn clear(&mut self)
        ensures
            final(self).objects@ == Seq::<H>::empty(),
    {
        self.objects.clear();
    }
}

impl<H: Hittable> Default for HittableList<H> {
    /// The empty list.
    fn default() -> (list: HittableList<H>)
        ensures
            list.objects@ == Seq::<H>::empty(),
    {
        HittableList::new()
    }
}

impl<H: Hittable> Hittable for HittableList<H> {
    open spec fn is_non_emissive(&self) -> bool {
        forall|i: int| 0 <= i < self.objects@.len() ==> (#[trigger] self.objects@[i]).is_non_emissive()
    }

    /// The nearest hit on any of the objects.
    open spec fn spec_hit(&self, r: Ray, ray_t: Interval) -> Option<HitRecord> {
        spec_hit_among(self.objects@, r, ray_t)
    }

    fn hit(&self, r: &Ray, ray_t: Interval) -> (res: Option<HitRecord>)
        ensures
            is_nearest_hit(self.objects@, *r, ray_t, res),
    {
        let mut closest_so_far: Fixed = ray_t.max;
        let mut hit_record: Option<HitRecord> = None;
        let mut i: usize = 0;
        while i < self.objects.len()
            invariant
                i <= self.objects.len(),
                hit_record == spec_hit_among(self.objects@.take(i as int), *r, ray_t),
                closest_so_far == spec_closest_so_far(hit_record, ray_t),
            decreases self.objects.len() - i,
        {
            proof {
                assert(self.objects@.take(i + 1).drop_last() =~= self.objects@.take(i as int));
            }
            match self.objects[i].hit(r, Interval::new(ray_t.min, closest_so_far)) {
                Some(rec) => {
                    closest_so_far = rec.t;
                    hit_record = Some(rec);
                },
                None => {},
            }
            i += 1;
        }
        proof {
            assert(self.objects@.take(i as int) =~= self.objects@);
            lemma_scan_finds_nearest(self.objects@, *r, ray_t);
        }
        hit_record
    }

    proof fn lemma_hit_inside(&self, r: Ray, ray_t: Interval) {
        lemma_scan_finds_nearest(self.objects@, r, ray_t);
        if let Some(rec) = self.spec_hit(r, ray_t) {
            let i = choose|i: int| is_first_nearest(self.objects@, r, ray_t, i, rec);
            self.objects@[i].lemma_hit_inside(r, ray_t);
        }
    }

    proof fn lemma_hit_narrowed(&self, r: Ray, ray_t: Interval, closest: Fixed) {
        lemma_scan_narrowed(self.objects@, r, ray_t, closest);
    }
}

} // verus!
