//! The scene aggregate: an ordered collection of spheres, queried for the
//! closest hit by shrinking the upper distance bound as hits are found, so a
//! later candidate is accepted only when strictly closer than the hit held.

use crate::fixed::SCALE;
use crate::hittable::{ray_within_limits, HitRecord, HitRecordV, T_LIMIT};
use crate::ray::{Ray, RayV};
use crate::sphere::{spec_sphere_hit, wf_sphere, Sphere};
use vstd::prelude::*;

verus! {

/// The fold the query performs: each sphere in turn is intersected against
/// `[t_min, closest]`, and a hit replaces the record held and shrinks the
/// bound to its distance.
pub open spec fn hit_fold(
    spheres: Seq<Sphere>,
    r: RayV,
    t_min: int,
    state: (Option<HitRecordV>, int),
) -> (Option<HitRecordV>, int)
    decreases spheres.len(),
{
    if spheres.len() == 0 {
        state
    } else {
        let next = match spec_sphere_hit(
            spheres[0].center@,
            spheres[0].radius as int,
            spheres[0].material,
            r,
            t_min,
            state.1,
        ) {
            Option::Some(h) => (Option::Some(h), h.t),
            Option::None => state,
        };
        hit_fold(spheres.drop_first(), r, t_min, next)
    }
}

/// The closest hit of the ray against every sphere of the scene.
pub open spec fn spec_list_hit(
    spheres: Seq<Sphere>,
    r: RayV,
    t_min: int,
    t_max: int,
) -> Option<HitRecordV> {
    hit_fold(spheres, r, t_min, (Option::None, t_max)).0
}

/// The view of an optional hit record.
pub open spec fn opt_hit_view(o: Option<HitRecord>) -> Option<HitRecordV> {
    match o {
        Option::Some(rec) => Option::Some(rec@),
        Option::None => Option::None,
    }
}

/// A sphere hit within a narrow distance window is the same hit within any
/// wider window sharing its lower end: the accepted root cannot change.
pub proof fn lemma_sphere_hit_widens(
    center: crate::vec3::V3,
    radius: int,
    material: crate::material::Material,
    r: RayV,
    t_min: int,
    t1: int,
    t2: int,
)
    requires
        t1 <= t2,
        1 <= crate::sphere::hit_a(r),
        spec_sphere_hit(center, radius, material, r, t_min, t1) is Some,
    ensures
        spec_sphere_hit(center, radius, material, r, t_min, t2) is Some,
        spec_sphere_hit(center, radius, material, r, t_min, t2) == spec_sphere_hit(
            center,
            radius,
            material,
            r,
            t_min,
            t1,
        ),
{
    let a = crate::sphere::hit_a(r);
    let half_b = crate::sphere::hit_half_b(center, r);
    let disc = crate::sphere::hit_disc(center, radius, r);
    assert(disc * SCALE >= 0) by (nonlinear_arith)
        requires disc >= 0 && SCALE == 1_000_000i64;
    crate::fixed::lemma_sqrt_int_exists(disc * SCALE);
    let sq = crate::fixed::sqrt_fx(disc);
    assert((-half_b - sq) * SCALE <= (-half_b + sq) * SCALE) by (nonlinear_arith)
        requires 0 <= sq && SCALE == 1_000_000i64;
    crate::fixed::lemma_div_trunc_monotone((-half_b - sq) * SCALE, (-half_b + sq) * SCALE, a);
}

/// A sphere missed within a narrow distance window, yet hit within a wider
/// one sharing its lower end, is hit beyond the narrow window.
pub proof fn lemma_sphere_hit_beyond_window(
    center: crate::vec3::V3,
    radius: int,
    material: crate::material::Material,
    r: RayV,
    t_min: int,
    t1: int,
    t2: int,
)
    requires
        t1 <= t2,
        spec_sphere_hit(center, radius, material, r, t_min, t1) is None,
        spec_sphere_hit(center, radius, material, r, t_min, t2) is Some,
    ensures
        spec_sphere_hit(center, radius, material, r, t_min, t2)->Some_0.t > t1,
{
}

/// An ordered collection of spheres, shared read-only during a render.
#[derive(Debug)]
pub struct HittableList {
    pub objects: Vec<Sphere>,
}

/// Every sphere of the scene is well formed.
pub open spec fn wf_list(l: HittableList) -> bool {
    forall|i: int| 0 <= i < l.objects@.len() ==> wf_sphere(#[trigger] l.objects@[i])
}

impl HittableList {
    pub fn new() -> (l: HittableList)
        ensures
            l.objects@.len() == 0,
            wf_list(l),
    {
        HittableList { objects: Vec::new() }
    }

    /// Appends a primitive; the scene is immutable once built.
    pub fn push(self, object: Sphere) -> (l: HittableList)
        requires
            wf_list(self),
            wf_sphere(object),
        ensures
            l.objects@ == self.objects@.push(object),
            wf_list(l),
    {
        let mut objects: Vec<Sphere> = self.objects;
        objects.push(object);
        let l = HittableList { objects };
        proof {
            assert forall|i: int| 0 <= i < l.objects@.len() implies wf_sphere(
                #[trigger] l.objects@[i],
            ) by {
                if i < self.objects@.len() {
                    assert(l.objects@[i] == self.objects@[i]);
                }
            }
        }
        l
    }

    /// The closest hit over all members in `[t_min, t_max]`, or none when no
    /// member reports one. The result does not depend on the order of the
    /// members except through ties in distance.
    pub fn hit(&self, r: &Ray, t_min: i64, t_max: i64) -> (res: Option<HitRecord>)
        requires
            wf_list(*self),
            ray_within_limits(r@),
            0 <= t_min <= t_max <= T_LIMIT,
        ensures
            opt_hit_view(res) == spec_list_hit(
                self.objects@,
                r@,
                t_min as int,
                t_max as int,
            ),
            res matches Some(rec) ==> t_min <= rec@.t <= t_max && crate::material::wf_material(
                rec@.material,
            ),
            res matches Some(rec) ==> forall|j: int|
                0 <= j < self.objects@.len() ==> (spec_sphere_hit(
                    (#[trigger] self.objects@[j]).center@,
                    self.objects@[j].radius as int,
                    self.objects@[j].material,
                    r@,
                    t_min as int,
                    t_max as int,
                ) matches Some(g) ==> rec@.t <= g.t),
            res matches Some(rec) ==> exists|j: int|
                0 <= j < self.objects@.len() && spec_sphere_hit(
                    (#[trigger] self.objects@[j]).center@,
                    self.objects@[j].radius as int,
                    self.objects@[j].material,
                    r@,
                    t_min as int,
                    t_max as int,
                ) == Some(rec@),
            (res is None) <==> (forall|j: int|
                0 <= j < self.objects@.len() ==> spec_sphere_hit(
                    (#[trigger] self.objects@[j]).center@,
                    self.objects@[j].radius as int,
                    self.objects@[j].material,
                    r@,
                    t_min as int,
                    t_max as int,
                ) is None),
    {
        let mut record: Option<HitRecord> = None;
        let mut closest_so_far: i64 = t_max;
        let n: usize = self.objects.len();
        let mut i: usize = 0;
        proof {
            assert(self.objects@.skip(0) =~= self.objects@);
        }
        while i < n
            invariant
                n == self.objects@.len(),
                0 <= i <= n,
                wf_list(*self),
                ray_within_limits(r@),
                0 <= t_min <= closest_so_far <= t_max <= T_LIMIT,
                hit_fold(
                    self.objects@.skip(i as int),
                    r@,
                    t_min as int,
                    (opt_hit_view(record), closest_so_far as int),
                ) == hit_fold(
                    self.objects@,
                    r@,
                    t_min as int,
                    (Option::None, t_max as int),
                ),
                record is None ==> closest_so_far == t_max,
                record is None ==> forall|j: int|
                    0 <= j < i ==> spec_sphere_hit(
                        (#[trigger] self.objects@[j]).center@,
                        self.objects@[j].radius as int,
                        self.objects@[j].material,
                        r@,
                        t_min as int,
                        t_max as int,
                    ) is None,
                record matches Some(rec) ==> t_min <= rec@.t <= t_max && closest_so_far == rec@.t
                    && crate::material::wf_material(rec@.material),
                record is Some ==> forall|j: int|
                    0 <= j < i ==> (spec_sphere_hit(
                        (#[trigger] self.objects@[j]).center@,
                        self.objects@[j].radius as int,
                        self.objects@[j].material,
                        r@,
                        t_min as int,
                        t_max as int,
                    ) matches Some(g) ==> closest_so_far <= g.t),
                record matches Some(rc) ==> exists|j: int|
                    0 <= j < i && spec_sphere_hit(
                        (#[trigger] self.objects@[j]).center@,
                        self.objects@[j].radius as int,
                        self.objects@[j].material,
                        r@,
                        t_min as int,
                        t_max as int,
                    ) == Some(rc@),
            decreases n - i,
        {
            let ghost pre = self.objects@.skip(i as int);
            proof {
                assert(pre[0] == self.objects@[i as int]);
                assert(pre.drop_first() == self.objects@.skip(i as int + 1));
            }
            let sphere: &Sphere = &self.objects[i];
            let ghost closest_pre = closest_so_far as int;
            let this_hit: Option<HitRecord> = sphere.hit(r, t_min, closest_so_far);
            match this_hit {
                Some(rec) => {
                    proof {
                        lemma_sphere_hit_widens(
                            sphere.center@,
                            sphere.radius as int,
                            sphere.material,
                            r@,
                            t_min as int,
                            closest_pre,
                            t_max as int,
                        );
                        assert(spec_sphere_hit(
                            (#[trigger] self.objects@[i as int]).center@,
                            self.objects@[i as int].radius as int,
                            self.objects@[i as int].material,
                            r@,
                            t_min as int,
                            t_max as int,
                        ) == Some(rec@));
                        assert forall|j: int| 0 <= j < i as int + 1 implies (spec_sphere_hit(
                            (#[trigger] self.objects@[j]).center@,
                            self.objects@[j].radius as int,
                            self.objects@[j].material,
                            r@,
                            t_min as int,
                            t_max as int,
                        ) matches Some(g) ==> rec@.t <= g.t) by {
                            let sj = self.objects@[j];
                            let wide = spec_sphere_hit(
                                sj.center@,
                                sj.radius as int,
                                sj.material,
                                r@,
                                t_min as int,
                                t_max as int,
                            );
                            if wide is Some && j < i as int && record is None {
                                assert(wide is None);
                            }
                        }
                    }
                    closest_so_far = rec.t;
                    record = Some(rec);
                },
                None => {
                    proof {
                        if record is Some {
                            let rc = record->Some_0;
                            assert forall|j: int| 0 <= j < i as int + 1 implies (spec_sphere_hit(
                                (#[trigger] self.objects@[j]).center@,
                                self.objects@[j].radius as int,
                                self.objects@[j].material,
                                r@,
                                t_min as int,
                                t_max as int,
                            ) matches Some(g) ==> closest_so_far as int <= g.t) by {
                                let sj = self.objects@[j];
                                let wide = spec_sphere_hit(
                                    sj.center@,
                                    sj.radius as int,
                                    sj.material,
                                    r@,
                                    t_min as int,
                                    t_max as int,
                                );
                                if wide is Some && j == i as int {
                                    lemma_sphere_hit_beyond_window(
                                        sj.center@,
                                        sj.radius as int,
                                        sj.material,
                                        r@,
                                        t_min as int,
                                        closest_pre,
                                        t_max as int,
                                    );
                                }
                            }
                        }
                    }
                },
            }
            i = i + 1;
        }
        proof {
            assert(self.objects@.skip(n as int) =~= Seq::<Sphere>::empty());
        }
        record
    }
}

} // verus!
