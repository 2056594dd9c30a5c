//! The hittable capability: reporting the nearest valid intersection of a
//! ray within a distance interval, and the aggregate that scans an ordered
//! collection of members and keeps the closest hit.

use vstd::prelude::*;
use crate::interval::Interval;
use crate::ray::{at_spec, ray_wf, Ray, RayV, T_BOUND};
use crate::vec3::{dot_raw, in_bounds, v3_neg, v3_zero, Vec3, V3, DIR_BOUND};

verus! {

/// Component bound on reported hit points.
pub const HIT_P_BOUND: i64 = 0x10_0000_0000_0000;

/// Component bound on reported (oriented outward) normals.
pub const HIT_N_BOUND: i64 = 0x2000_0000_0000_0000;

/// The mathematical content of a successful intersection.
pub ghost struct HitInfo {
    pub t: int,
    pub p: V3,
    pub normal: V3,
    pub front_face: bool,
}

/// The outcome of a successful intersection: distance parameter, hit point,
/// oriented unit-scale outward normal, and whether the ray arrived from the
/// outward side.
#[derive(Clone, Copy)]
pub struct HitRecord {
    pub t: i64,
    pub p: Vec3,
    pub normal: Vec3,
    pub front_face: bool,
}

impl View for HitRecord {
    type V = HitInfo;

    open spec fn view(&self) -> HitInfo {
        HitInfo { t: self.t as int, p: self.p@, normal: self.normal@, front_face: self.front_face }
    }
}

/// Bounds that every reported hit obeys.
pub open spec fn hit_info_wf(h: HitInfo) -> bool {
    &&& -T_BOUND <= h.t <= T_BOUND
    &&& in_bounds(h.p, HIT_P_BOUND as int)
    &&& in_bounds(h.normal, HIT_N_BOUND as int)
}

/// Whether the ray arrives against the outward normal (from the outward side).
pub open spec fn front_face_spec(dir: V3, outward: V3) -> bool {
    dot_raw(dir, outward) < 0
}

/// The outward normal turned against the incoming ray direction.
pub open spec fn oriented_normal(dir: V3, outward: V3) -> V3 {
    if front_face_spec(dir, outward) {
        outward
    } else {
        v3_neg(outward)
    }
}

impl HitRecord {
    /// Orients `outward_norm` against the ray: the stored normal always
    /// opposes the incoming direction, and the flag records which side.
    pub fn set_face_normal(&mut self, r: &Ray, outward_norm: Vec3)
        requires
            in_bounds(r@.dir, DIR_BOUND as int),
            in_bounds(outward_norm@, HIT_N_BOUND as int),
        ensures
            final(self).front_face == front_face_spec(r@.dir, outward_norm@),
            final(self).normal@ == oriented_normal(r@.dir, outward_norm@),
            final(self).t == old(self).t,
            final(self).p == old(self).p,
    {
        let d = r.direction();
        let front_face = d.dot_wide(&outward_norm) < 0;
        self.front_face = front_face;
        self.normal = if front_face {
            outward_norm
        } else {
            outward_norm.neg()
        };
    }
}

impl Default for HitRecord {
    fn default() -> (r: HitRecord)
        ensures
            r.t == 0,
            r.p@ == v3_zero(),
            r.normal@ == v3_zero(),
            !r.front_face,
    {
        HitRecord { t: 0, p: Vec3::zeros(), normal: Vec3::zeros(), front_face: false }
    }
}

/// The capability of reporting the nearest valid intersection of a ray
/// within a distance interval. `hit_info` is the impl's mathematical answer;
/// the two lemmas are the facts every impl must establish about it, and
/// `hit` is the executable query, proved to return exactly `hit_info`.
pub trait Hittable: Sized {
    /// The mathematical result of the intersection query on the open
    /// interval `(tmin, tmax)`.
    spec fn hit_info(&self, r: RayV, tmin: int, tmax: int) -> Option<HitInfo>;

    /// Well-formedness of the object's geometry.
    spec fn wf(&self) -> bool;

    /// Every reported hit lies strictly inside the queried interval, sits on
    /// the queried ray at its own parameter, and is within bounds.
    proof fn lemma_hit_props(&self, r: RayV, tmin: int, tmax: int)
        requires
            self.wf(),
            ray_wf(r),
        ensures
            match self.hit_info(r, tmin, tmax) {
                Some(h) => tmin < h.t < tmax && hit_info_wf(h) && h.p == at_spec(r, h.t),
                None => true,
            },
    ;

    /// Lowering the far end of the interval keeps a hit exactly when it
    /// still lies inside, and never uncovers a different hit.
    proof fn lemma_hit_shrink(&self, r: RayV, tmin: int, tmax: int, tmax2: int)
        requires
            self.wf(),
            ray_wf(r),
            tmax2 <= tmax,
        ensures
            self.hit_info(r, tmin, tmax2) == shrunk_hit(self.hit_info(r, tmin, tmax), tmax2),
    ;

    /// The executable intersection query.
    fn hit(&self, r: &Ray, ray_t: Interval) -> (res: Option<HitRecord>)
        requires
            self.wf(),
            ray_wf(r@),
        ensures
            match res {
                Some(rec) => self.hit_info(r@, ray_t.min as int, ray_t.max as int) == Some(rec@),
                None => self.hit_info(r@, ray_t.min as int, ray_t.max as int) is None,
            },
    ;
}

/// What a hit query answers after its far end is lowered to `m`.
pub open spec fn shrunk_hit(o: Option<HitInfo>, m: int) -> Option<HitInfo> {
    match o {
        Some(h) => if h.t < m {
            Some(h)
        } else {
            None
        },
        None => None,
    }
}

/// The first option if present, the second otherwise: how a later, closer
/// hit takes precedence over the best hit found so far.
pub open spec fn prefer_hit(rest: Option<HitInfo>, best: Option<HitInfo>) -> Option<HitInfo> {
    match rest {
        Some(h) => Some(h),
        None => best,
    }
}

/// All members of a collection are well-formed.
pub open spec fn seq_wf<T: Hittable>(objs: Seq<T>) -> bool {
    forall|k: int| 0 <= k < objs.len() ==> (#[trigger] objs[k]).wf()
}

/// The closest hit over an ordered collection, scanned front to back with a
/// shrinking far bound; on equal distances the earlier member wins.
pub open spec fn list_hit<T: Hittable>(objs: Seq<T>, r: RayV, tmin: int, tmax: int) -> Option<
    HitInfo,
>
    decreases objs.len(),
{
    if objs.len() == 0 {
        None
    } else {
        let rest = objs.skip(1);
        match objs[0].hit_info(r, tmin, tmax) {
            Some(h) => prefer_hit(list_hit(rest, r, tmin, h.t), Some(h)),
            None => list_hit(rest, r, tmin, tmax),
        }
    }
}

proof fn lemma_seq_wf_skip<T: Hittable>(objs: Seq<T>)
    requires
        seq_wf(objs),
        objs.len() > 0,
    ensures
        seq_wf(objs.skip(1)),
{
    let rest = objs.skip(1);
    assert forall|k: int| 0 <= k < rest.len() implies (#[trigger] rest[k]).wf() by {
        assert(rest[k] == objs[k + 1]);
    }
}

/// `lemma_hit_props`, lifted over a collection.
pub proof fn lemma_list_hit_props<T: Hittable>(objs: Seq<T>, r: RayV, tmin: int, tmax: int)
    requires
        seq_wf(objs),
        ray_wf(r),
    ensures
        match list_hit(objs, r, tmin, tmax) {
            Some(h) => tmin < h.t < tmax && hit_info_wf(h) && h.p == at_spec(r, h.t),
            None => true,
        },
    decreases objs.len(),
{
    if objs.len() > 0 {
        let rest = objs.skip(1);
        lemma_seq_wf_skip(objs);
        objs[0].lemma_hit_props(r, tmin, tmax);
        match objs[0].hit_info(r, tmin, tmax) {
            Some(h) => {
                lemma_list_hit_props(rest, r, tmin, h.t);
            },
            None => {
                lemma_list_hit_props(rest, r, tmin, tmax);
            },
        }
    }
}

/// `lemma_hit_shrink`, lifted over a collection.
pub proof fn lemma_list_hit_shrink<T: Hittable>(
    objs: Seq<T>,
    r: RayV,
    tmin: int,
    tmax: int,
    tmax2: int,
)
    requires
        seq_wf(objs),
        ray_wf(r),
        tmax2 <= tmax,
    ensures
        list_hit(objs, r, tmin, tmax2) == shrunk_hit(list_hit(objs, r, tmin, tmax), tmax2),
    decreases objs.len(),
{
    if objs.len() > 0 {
        let rest = objs.skip(1);
        lemma_seq_wf_skip(objs);
        objs[0].lemma_hit_props(r, tmin, tmax);
        objs[0].lemma_hit_shrink(r, tmin, tmax, tmax2);
        match objs[0].hit_info(r, tmin, tmax) {
            Some(h) => {
                if h.t < tmax2 {
                    // Same leading hit on both sides; the tails agree exactly.
                    lemma_list_hit_props(rest, r, tmin, h.t);
                } else {
                    lemma_list_hit_shrink(rest, r, tmin, h.t, tmax2);
                    lemma_list_hit_props(rest, r, tmin, h.t);
                }
            },
            None => {
                lemma_list_hit_shrink(rest, r, tmin, tmax, tmax2);
            },
        }
    }
}

/// The aggregate's hit is never farther than any member's own hit: the
/// closest-hit distance is a lower bound over the whole collection.
pub proof fn lemma_list_hit_closest<T: Hittable>(
    objs: Seq<T>,
    r: RayV,
    tmin: int,
    tmax: int,
    i: int,
)
    requires
        seq_wf(objs),
        ray_wf(r),
        0 <= i < objs.len(),
        objs[i].hit_info(r, tmin, tmax) is Some,
    ensures
        list_hit(objs, r, tmin, tmax) is Some,
        list_hit(objs, r, tmin, tmax)->0.t <= objs[i].hit_info(r, tmin, tmax)->0.t,
    decreases objs.len(),
{
    let rest = objs.skip(1);
    lemma_seq_wf_skip(objs);
    objs[0].lemma_hit_props(r, tmin, tmax);
    objs[i].lemma_hit_props(r, tmin, tmax);
    if i == 0 {
        let h = objs[0].hit_info(r, tmin, tmax)->0;
        lemma_list_hit_props(rest, r, tmin, h.t);
    } else {
        assert(rest[i - 1] == objs[i]);
        let ti = objs[i].hit_info(r, tmin, tmax)->0.t;
        match objs[0].hit_info(r, tmin, tmax) {
            Some(h) => {
                objs[i].lemma_hit_shrink(r, tmin, tmax, h.t);
                if ti < h.t {
                    lemma_list_hit_closest(rest, r, tmin, h.t, i - 1);
                } else {
                    lemma_list_hit_props(rest, r, tmin, h.t);
                }
            },
            None => {
                lemma_list_hit_closest(rest, r, tmin, tmax, i - 1);
            },
        }
    }
}

/// An ordered collection of hittable objects, itself hittable: it reports
/// the closest valid hit among its members.
pub struct HitList<T: Hittable> {
    list: Vec<T>,
}

impl<T: Hittable> HitList<T> {
    /// The members, in scan order.
    pub closed spec fn objects(&self) -> Seq<T> {
        self.list@
    }

    pub fn new() -> (r: HitList<T>)
        ensures
            r.objects() =~= Seq::<T>::empty(),
    {
        HitList { list: Vec::new() }
    }

    pub fn clear(&mut self)
        ensures
            final(self).objects() =~= Seq::<T>::empty(),
    {
        self.list.clear();
    }

    pub fn add(&mut self, obj: T)
        ensures
            final(self).objects() == old(self).objects().push(obj),
    {
        self.list.push(obj);
    }
}

impl<T: Hittable> Hittable for HitList<T> {
    open spec fn hit_info(&self, r: RayV, tmin: int, tmax: int) -> Option<HitInfo> {
        list_hit(self.objects(), r, tmin, tmax)
    }

    open spec fn wf(&self) -> bool {
        seq_wf(self.objects())
    }

    proof fn lemma_hit_props(&self, r: RayV, tmin: int, tmax: int) {
        lemma_list_hit_props(self.objects(), r, tmin, tmax);
    }

    proof fn lemma_hit_shrink(&self, r: RayV, tmin: int, tmax: int, tmax2: int) {
        lemma_list_hit_shrink(self.objects(), r, tmin, tmax, tmax2);
    }

    /// Scans the members in order, querying each against a far bound that
    /// shrinks to the nearest hit found so far.
    fn hit(&self, r: &Ray, ray_t: Interval) -> (res: Option<HitRecord>)
    {
        let ghost s = self.list@;
        let ghost tmin = ray_t.min as int;
        let ghost tmax = ray_t.max as int;
        let mut best: Option<HitRecord> = None;
        let mut closest: i64 = ray_t.max;
        let n = self.list.len();
        let mut idx: usize = 0;
        proof {
            assert(s.skip(0) =~= s);
        }
        while idx < n
            invariant
                n == s.len(),
                0 <= idx <= n,
                tmin == ray_t.min as int,
                tmax == ray_t.max as int,
                seq_wf(s),
                ray_wf(r@),
                s == self.list@,
                match best {
                    Some(b) => b.t == closest,
                    None => closest == ray_t.max,
                },
                prefer_hit(
                    list_hit(s.skip(idx as int), r@, tmin, closest as int),
                    match best {
                        Some(b) => Some(b@),
                        None => None,
                    },
                ) == list_hit(s, r@, tmin, tmax),
            decreases n - idx,
        {
            proof {
                assert(s[idx as int].wf());
            }
            let item = &self.list[idx];
            let found = item.hit(r, Interval::new(ray_t.min, closest));
            proof {
                assert(s.skip(idx as int)[0] == s[idx as int]);
                assert(s.skip(idx as int).skip(1) =~= s.skip(idx as int + 1));
                assert(s.skip(idx as int).len() == s.len() - idx);
            }
            match found {
                Some(rec) => {
                    proof {
                        assert(list_hit(s.skip(idx as int), r@, tmin, closest as int)
                            == prefer_hit(
                            list_hit(s.skip(idx as int + 1), r@, tmin, rec@.t),
                            Some(rec@),
                        ));
                    }
                    closest = rec.t;
                    best = Some(rec);
                },
                None => {
                    proof {
                        assert(list_hit(s.skip(idx as int), r@, tmin, closest as int)
                            == list_hit(s.skip(idx as int + 1), r@, tmin, closest as int));
                    }
                },
            }
            idx = idx + 1;
        }
        proof {
            assert(s.skip(n as int).len() == 0);
        }
        best
    }
}

} // verus!
