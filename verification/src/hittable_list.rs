//! The scene: an ordered collection of surfaces intersected by a
//! linear scan that keeps only the closest valid hit, tightening the
//! upper parameter bound to the best hit found so far.

use vstd::prelude::*;

use crate::fixed::Fp;
use crate::hittable::Hit;
use crate::hittable::HitV;
use crate::hittable::Surface;
use crate::hittable::SurfaceV;
use crate::hittable::lemma_surface_hit_in_interval;
use crate::hittable::lemma_surface_hit_shrink;
use crate::hittable::opt_hit_v;
use crate::hittable::surface_hit_s;
use crate::interval::Interval;
use crate::ray::Ray;
use crate::ray::RayV;

verus! {

/// Spec mirror of the scan: fold over the members in order, shrinking
/// the upper bound to the parameter of the best hit so far, so a later
/// member replaces the result only with a strictly closer hit.
pub open spec fn list_hit_s(objs: Seq<SurfaceV>, r: RayV, tmin: int, tmax: int) -> Option<HitV>
    decreases objs.len(),
{
    if objs.len() == 0 {
        None::<HitV>
    } else {
        let prev = list_hit_s(objs.drop_last(), r, tmin, tmax);
        let cur_max = match prev {
            Some(h) => h.t,
            None => tmax,
        };
        match surface_hit_s(objs.last(), r, tmin, cur_max) {
            Some(h2) => Some(h2),
            None => prev,
        }
    }
}

/// An ordered collection of surfaces.
pub struct HittableList {
    pub objects: Vec<Surface>,
}

impl View for HittableList {
    type V = Seq<SurfaceV>;

    open spec fn view(&self) -> Seq<SurfaceV> {
        self.objects@.map_values(|o: Surface| o@)
    }
}

impl HittableList {
    /// Build an empty scene.
    pub fn new() -> (r: HittableList)
        ensures
            r@ =~= Seq::<SurfaceV>::empty(),
    {
        HittableList { objects: Vec::new() }
    }

    /// Append a surface; nothing is ever removed.
    pub fn add(&mut self, object: Surface)
        ensures
            final(self)@ =~= old(self)@.push(object@),
    {
        self.objects.push(object);
    }

    /// The closest valid hit over all members, scanned in order.
    pub fn hit(&self, r: &Ray, ray_t: Interval) -> (res: Option<Hit>)
        ensures
            opt_hit_v(res) == list_hit_s(self@, r@, ray_t@.min, ray_t@.max),
    {
        let mut result: Option<Hit> = None;
        let mut current_max: Fp = ray_t.max;
        let n = self.objects.len();
        let mut i: usize = 0;
        while i < n
            invariant
                0 <= i <= n,
                n == self.objects.len(),
                opt_hit_v(result) == list_hit_s(self@.take(i as int), r@, ray_t@.min, ray_t@.max),
                current_max@ == (match opt_hit_v(result) {
                    Some(h) => h.t,
                    None => ray_t@.max,
                }),
            decreases n - i,
        {
            let obj = &self.objects[i];
            proof {
                assert(self@.take(i as int + 1).drop_last() =~= self@.take(i as int));
                assert(self@.take(i as int + 1).last() == obj@);
            }
            if let Some(hit) = obj.hit(r, Interval::new(ray_t.min, current_max)) {
                current_max = hit.t;
                result = Some(hit);
            }
            i = i + 1;
        }
        proof {
            assert(self@.take(n as int) =~= self@);
        }
        result
    }
}

/// The scan returns the closest valid hit.  If it reports a hit, that
/// hit is one some member reports for the full interval, and no member
/// reports a hit with a smaller parameter; if it reports none, no
/// member reports any hit for the full interval.  Membership order can
/// matter only when two members report the same parameter.
#[verifier::rlimit(100)]
pub proof fn lemma_list_hit_minimal(objs: Seq<SurfaceV>, r: RayV, tmin: int, tmax: int)
    ensures
        match list_hit_s(objs, r, tmin, tmax) {
            None => forall|i: int|
                0 <= i < objs.len() ==> #[trigger] surface_hit_s(objs[i], r, tmin, tmax) is None,
            Some(h) => {
                &&& tmin < h.t < tmax
                &&& exists|i: int|
                    0 <= i < objs.len() && #[trigger] surface_hit_s(objs[i], r, tmin, tmax)
                        == Some(h)
                &&& forall|i: int|
                    0 <= i < objs.len() ==> (match #[trigger] surface_hit_s(
                        objs[i],
                        r,
                        tmin,
                        tmax,
                    ) {
                        Some(h2) => h.t <= h2.t,
                        None => true,
                    })
            },
        },
    decreases objs.len(),
{
    if objs.len() > 0 {
        let pre = objs.drop_last();
        let n = objs.len() as int;
        lemma_list_hit_minimal(pre, r, tmin, tmax);
        assert forall|i: int| 0 <= i < n - 1 implies pre[i] == objs[i] by {
        }
        assert(objs.last() == objs[n - 1]);
        let prev = list_hit_s(pre, r, tmin, tmax);
        let cur_max = match prev {
            Some(h) => h.t,
            None => tmax,
        };
        assert(cur_max <= tmax) by {
            if prev is Some {
                assert(tmin < prev->0.t < tmax);
            }
        }
        lemma_surface_hit_shrink(objs.last(), r, tmin, cur_max, tmax);
        lemma_surface_hit_in_interval(objs.last(), r, tmin, cur_max);
        match surface_hit_s(objs.last(), r, tmin, cur_max) {
            Some(h2) => {
                assert(list_hit_s(objs, r, tmin, tmax) == Some(h2));
                assert(surface_hit_s(objs[n - 1], r, tmin, tmax) == Some(h2));
                assert forall|i: int|
                    0 <= i < n implies (match #[trigger] surface_hit_s(objs[i], r, tmin, tmax) {
                    Some(hh) => h2.t <= hh.t,
                    None => true,
                }) by {
                    if i < n - 1 {
                        assert(surface_hit_s(pre[i], r, tmin, tmax) == surface_hit_s(
                            objs[i],
                            r,
                            tmin,
                            tmax,
                        ));
                        match prev {
                            Some(hp) => {
                                assert(h2.t < cur_max == hp.t);
                            },
                            None => {
                            },
                        }
                    }
                }
            },
            None => {
                assert(list_hit_s(objs, r, tmin, tmax) == prev);
                match prev {
                    Some(hp) => {
                        assert(cur_max == hp.t);
                        let ghost wi = choose|i: int|
                            0 <= i < n - 1 && #[trigger] surface_hit_s(pre[i], r, tmin, tmax)
                                == Some(hp);
                        assert(surface_hit_s(objs[wi], r, tmin, tmax) == Some(hp));
                        assert forall|i: int|
                            0 <= i < n implies (match #[trigger] surface_hit_s(
                            objs[i],
                            r,
                            tmin,
                            tmax,
                        ) {
                            Some(hh) => hp.t <= hh.t,
                            None => true,
                        }) by {
                            if i < n - 1 {
                                assert(surface_hit_s(pre[i], r, tmin, tmax) == surface_hit_s(
                                    objs[i],
                                    r,
                                    tmin,
                                    tmax,
                                ));
                            }
                        }
                    },
                    None => {
                        assert(cur_max == tmax);
                        assert forall|i: int|
                            0 <= i < n implies #[trigger] surface_hit_s(objs[i], r, tmin, tmax)
                            is None by {
                            if i < n - 1 {
                                assert(surface_hit_s(pre[i], r, tmin, tmax) == surface_hit_s(
                                    objs[i],
                                    r,
                                    tmin,
                                    tmax,
                                ));
                            }
                        }
                    },
                }
            },
        }
    }
}

} // verus!
