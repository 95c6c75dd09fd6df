//! The scene: spheres, lights, and the nearest-hit query.

use crate::fx::SCALE;
use crate::intersect;
use crate::intersect::{hit_spec, hit_t_spec, Hit, DIR_RANGE, EPS, T_FAR};
use crate::light::{AmbientLight, Light, PointLight};
use crate::renderer::Ray;
use crate::sphere::Sphere;
use crate::vec3::{Vec3, POS_LIM};
use vstd::prelude::*;

verus! {

pub struct Scene {
    pub spheres: Vec<Sphere>,
    pub lights: Vec<Light>,
}

/// The nearest hit over a prefix of the sphere sequence: the smallest
/// positive hit parameter, ties broken by first occurrence. Yields the
/// sphere's index and the hit parameter.
pub open spec fn best_hit(spheres: Seq<Sphere>, ray: Ray) -> Option<(int, int)>
    decreases spheres.len(),
{
    if spheres.len() == 0 {
        None
    } else {
        let prev = best_hit(spheres.drop_last(), ray);
        match hit_t_spec(spheres.last(), ray) {
            Option::None => prev,
            Option::Some(t) => match prev {
                Option::None => Some((spheres.len() - 1, t)),
                Option::Some(p) => if t < p.1 {
                    Some((spheres.len() - 1, t))
                } else {
                    prev
                },
            },
        }
    }
}

/// The hit `best_hit` selects is a real hit, no other sphere is hit
/// strictly nearer, and among equally near spheres the first wins; on
/// `None`, no sphere is hit at all.
pub proof fn lemma_query_nearest(spheres: Seq<Sphere>, ray: Ray)
    ensures
        match best_hit(spheres, ray) {
            Option::None => forall|j: int|
                0 <= j < spheres.len() ==> #[trigger] hit_t_spec(spheres[j], ray) is None,
            Option::Some(p) => {
                &&& 0 <= p.0 < spheres.len()
                &&& hit_t_spec(spheres[p.0], ray) == Some(p.1)
                &&& forall|j: int|
                    0 <= j < spheres.len() && #[trigger] hit_t_spec(spheres[j], ray) is Some
                        ==> p.1 <= hit_t_spec(spheres[j], ray)->Some_0
                &&& forall|j: int|
                    0 <= j < p.0 && #[trigger] hit_t_spec(spheres[j], ray) is Some ==> p.1
                        < hit_t_spec(spheres[j], ray)->Some_0
            },
        },
    decreases spheres.len(),
{
    if spheres.len() > 0 {
        let pre = spheres.drop_last();
        lemma_query_nearest(pre, ray);
        assert(spheres.last() == spheres[spheres.len() - 1]);
        match best_hit(spheres, ray) {
            Option::None => {
                assert forall|j: int|
                    0 <= j < spheres.len() implies #[trigger] hit_t_spec(spheres[j], ray)
                    is None by {
                    if j < spheres.len() - 1 {
                        assert(pre[j] == spheres[j]);
                        assert(hit_t_spec(pre[j], ray) is None);
                    }
                }
            },
            Option::Some(p) => {
                assert forall|j: int|
                    0 <= j < spheres.len() && #[trigger] hit_t_spec(spheres[j], ray)
                        is Some implies p.1 <= hit_t_spec(spheres[j], ray)->Some_0 by {
                    if j < spheres.len() - 1 {
                        assert(pre[j] == spheres[j]);
                        assert(hit_t_spec(pre[j], ray) == hit_t_spec(spheres[j], ray));
                    }
                }
                assert forall|j: int|
                    0 <= j < p.0 && #[trigger] hit_t_spec(spheres[j], ray) is Some implies p.1
                    < hit_t_spec(spheres[j], ray)->Some_0 by {
                    if j < spheres.len() - 1 {
                        assert(pre[j] == spheres[j]);
                        assert(hit_t_spec(pre[j], ray) == hit_t_spec(spheres[j], ray));
                    }
                }
            },
        }
    }
}

impl Scene {
    /// Every sphere and every light is well formed.
    pub open spec fn wf(self) -> bool {
        &&& forall|i: int| 0 <= i < self.spheres@.len() ==> #[trigger] self.spheres@[i].wf()
        &&& forall|i: int| 0 <= i < self.lights@.len() ==> #[trigger] self.lights@[i].wf()
    }

    /// The nearest hit of `ray` against all spheres, or `None`.
    pub fn query(&self, ray: &Ray) -> (r: Option<Hit>)
        requires
            self.wf(),
            ray.origin.in_range(POS_LIM as int),
            ray.direction.in_range(DIR_RANGE as int),
        ensures
            match best_hit(self.spheres@, *ray) {
                Option::None => r is None,
                Option::Some(p) => r == Some(hit_spec(self.spheres@[p.0], *ray, p.1)) && hit_spec(
                    self.spheres@[p.0],
                    *ray,
                    p.1,
                ).point.in_range(intersect::PT_LIM as int) && hit_spec(
                    self.spheres@[p.0],
                    *ray,
                    p.1,
                ).normal.in_range(SCALE as int),
            },
    {
        let mut found = false;
        let mut best_i: usize = 0;
        let mut best_t: i64 = 0;
        let mut i: usize = 0;
        proof {
            assert(self.spheres@.take(0) =~= Seq::<Sphere>::empty());
        }
        while i < self.spheres.len()
            invariant
                self.wf(),
                ray.origin.in_range(POS_LIM as int),
                ray.direction.in_range(DIR_RANGE as int),
                0 <= i <= self.spheres@.len(),
                match best_hit(self.spheres@.take(i as int), *ray) {
                    Option::None => !found,
                    Option::Some(p) => found && best_i as int == p.0 && best_t as int == p.1
                        && EPS < best_t <= T_FAR && 0 <= p.0 < i,
                },
            decreases self.spheres@.len() - i,
        {
            proof {
                assert(self.spheres@[i as int].wf());
                assert(self.spheres@.take(i as int + 1).drop_last() =~= self.spheres@.take(
                    i as int,
                ));
                assert(self.spheres@.take(i as int + 1).last() == self.spheres@[i as int]);
            }
            let s = &self.spheres[i];
            match intersect::intersect(s, ray) {
                Some(t) => {
                    if !found || t < best_t {
                        found = true;
                        best_i = i;
                        best_t = t;
                    }
                },
                None => {},
            }
            i = i + 1;
        }
        proof {
            assert(self.spheres@.take(self.spheres@.len() as int) =~= self.spheres@);
        }
        if found {
            let s = &self.spheres[best_i];
            Some(intersect::make_hit(s, ray, best_t))
        } else {
            None
        }
    }

    /// The lights, in declared order.
    pub fn lights(&self) -> (r: &Vec<Light>)
        ensures
            r == &self.lights,
    {
        &self.lights
    }

    /// The demo scene: three orbs of distinct albedos strung out along
    /// the +x axis, one ambient light and one point light.
    pub fn pondering_orbs() -> (r: Scene)
        ensures
            r.wf(),
            r.spheres@.len() == 3,
            r.lights@.len() == 2,
            r.spheres@[0] == (Sphere {
                center: Vec3 { x: 0, y: 0, z: 0 },
                radius: 1_000_000_000,
                albedo: Vec3 { x: 1_000_000_000, y: 200_000_000, z: 200_000_000 },
            }),
            r.spheres@[1] == (Sphere {
                center: Vec3 { x: 4_000_000_000, y: 0, z: 0 },
                radius: 1_000_000_000,
                albedo: Vec3 { x: 200_000_000, y: 1_000_000_000, z: 200_000_000 },
            }),
            r.spheres@[2] == (Sphere {
                center: Vec3 { x: 8_000_000_000, y: 0, z: 0 },
                radius: 1_000_000_000,
                albedo: Vec3 { x: 200_000_000, y: 200_000_000, z: 1_000_000_000 },
            }),
            r.lights@[0] == Light::Ambient(
                AmbientLight { intensity: Vec3 { x: 100_000_000, y: 100_000_000, z: 100_000_000 } },
            ),
            r.lights@[1] == Light::Point(
                PointLight {
                    position: Vec3 { x: -10_000_000_000i64, y: 5_000_000_000, z: 5_000_000_000 },
                    intensity: Vec3 { x: 1_000_000_000, y: 1_000_000_000, z: 1_000_000_000 },
                    falloff: None,
                },
            ),
    {
        let mut spheres: Vec<Sphere> = Vec::new();
        spheres.push(
            Sphere {
                center: Vec3 { x: 0, y: 0, z: 0 },
                radius: 1_000_000_000,
                albedo: Vec3 { x: 1_000_000_000, y: 200_000_000, z: 200_000_000 },
            },
        );
        spheres.push(
            Sphere {
                center: Vec3 { x: 4_000_000_000, y: 0, z: 0 },
                radius: 1_000_000_000,
                albedo: Vec3 { x: 200_000_000, y: 1_000_000_000, z: 200_000_000 },
            },
        );
        spheres.push(
            Sphere {
                center: Vec3 { x: 8_000_000_000, y: 0, z: 0 },
                radius: 1_000_000_000,
                albedo: Vec3 { x: 200_000_000, y: 200_000_000, z: 1_000_000_000 },
            },
        );
        let mut lights: Vec<Light> = Vec::new();
        lights.push(
            Light::Ambient(
                AmbientLight { intensity: Vec3 { x: 100_000_000, y: 100_000_000, z: 100_000_000 } },
            ),
        );
        lights.push(
            Light::Point(
                PointLight {
                    position: Vec3 { x: -10_000_000_000i64, y: 5_000_000_000, z: 5_000_000_000 },
                    intensity: Vec3 { x: 1_000_000_000, y: 1_000_000_000, z: 1_000_000_000 },
                    falloff: None,
                },
            ),
        );
        let r = Scene { spheres, lights };
        proof {
            assert forall|i: int| 0 <= i < r.spheres@.len() implies #[trigger] r.spheres@[i].wf()
            by {
                assert(SCALE == 1_000_000_000);
            }
            assert forall|i: int| 0 <= i < r.lights@.len() implies #[trigger] r.lights@[i].wf() by {
                assert(SCALE == 1_000_000_000);
            }
        }
        r
    }
}

} // verus!
