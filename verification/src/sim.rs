//! The physics step: per-particle spring-force accumulation over the four
//! grid neighbors, velocity damping along each spring, a friction drag,
//! semi-implicit Euler integration, and collision resolution against the
//! static sphere.
//!
//! The spec functions below are the mathematical model of one step. The
//! executable kernel is proved to return exactly the model's value, so a
//! step is a function of the parameter snapshot and the pre-step buffer
//! alone: updates never mix pre- and post-step neighbor state, and two
//! runs from equal states agree exactly.

use vstd::prelude::*;
use crate::fixed::{
    absi, fxm, fxd, sdiv, mul_fx, div_fx, lemma_abs_mul, lemma_sdiv_le, lemma_grow_le,
    lemma_square_le_root, lemma_trunc_sq_bounds, lemma_cancel_le, lemma_isqrt_property,
    lemma_isqrt_unique,
};
use crate::vec3::{
    Vec3, v3, bounded3, add3, sub3, scale3, dot3, norm_sq3, len3, unit3, lemma_norm_sq_le,
};
use crate::topology::{
    NO_NEIGHBOR, nbr_spec, calculate_neighbors, lemma_grid, lemma_neighbor_symmetry,
};
use crate::params::{
    Sphere, SimulationParameters, PhysicalConstants, ConfigError, params_wf, sphere_wf,
    constants_wf, snapshot, snapshot_spec, MAX_COORD, MAX_COEFF, MAX_DELTA, MAX_GRID_ROW,
};
use vstd::arithmetic::mul::{lemma_mul_upper_bound, lemma_mul_is_commutative};
use vstd::arithmetic::div_mod::lemma_div_of0;

verus! {

/// A point mass of the cloth: its position, its velocity, and the indices
/// of its up-to-four grid neighbors (absent ones hold the sentinel).
#[derive(Clone, Copy, PartialEq, Eq, Debug)]
pub struct Particle {
    pub position: Vec3,
    pub velocity: Vec3,
    pub neighbors: [u32; 4],
}

/// A particle whose coordinates are in range and whose live neighbor
/// references point into a buffer of `n` particles.
pub open spec fn particle_wf(p: Particle, n: int) -> bool {
    &&& bounded3(v3(p.position), MAX_COORD as int)
    &&& bounded3(v3(p.velocity), MAX_COORD as int)
    &&& forall|k: int|
        0 <= k < 4 ==> ((#[trigger] p.neighbors@[k]) == NO_NEIGHBOR || (p.neighbors@[k] as int)
            < n)
}

/// Every particle of the buffer is well formed.
pub open spec fn buffer_wf(parts: Seq<Particle>) -> bool {
    forall|i: int| 0 <= i < parts.len() ==> particle_wf(#[trigger] parts[i], parts.len() as int)
}

/// The force the spring in slot `k` of particle `i` contributes: zero for
/// an absent neighbor or a degenerate zero-length displacement; otherwise
/// the structural spring force along the unit direction toward the
/// neighbor, plus the projected relative velocity scaled by the damping
/// factor, all along that direction.
pub open spec fn spring_term(
    pr: SimulationParameters,
    parts: Seq<Particle>,
    i: int,
    k: int,
) -> (int, int, int) {
    let p = parts[i];
    let nb = p.neighbors@[k] as int;
    if nb == NO_NEIGHBOR as int {
        (0int, 0int, 0int)
    } else {
        let q = parts[nb];
        let d = sub3(v3(q.position), v3(p.position));
        let l = len3(d);
        if l == 0 {
            (0int, 0int, 0int)
        } else {
            let u = unit3(d);
            let fs = fxm(pr.structural_stiffness as int, l - pr.rest_length as int);
            let fd = fxm(pr.damping_factor as int, dot3(sub3(v3(q.velocity), v3(p.velocity)), u));
            scale3(u, fs + fd)
        }
    }
}

/// The total force on particle `i`: the four spring contributions, less a
/// friction drag proportional to the particle's current velocity.
pub open spec fn force_total(pr: SimulationParameters, parts: Seq<Particle>, i: int) -> (
    int,
    int,
    int,
) {
    let s = add3(
        add3(spring_term(pr, parts, i, 0), spring_term(pr, parts, i, 1)),
        add3(spring_term(pr, parts, i, 2), spring_term(pr, parts, i, 3)),
    );
    sub3(s, scale3(v3(parts[i].velocity), pr.friction_factor as int))
}

/// The velocity after semi-implicit Euler integration: the acceleration is
/// the total force over the mass, applied for the time delta.
pub open spec fn integrated_velocity(pr: SimulationParameters, parts: Seq<Particle>, i: int) -> (
    int,
    int,
    int,
) {
    let f = force_total(pr, parts, i);
    let acc = (fxd(f.0, pr.mass as int), fxd(f.1, pr.mass as int), fxd(f.2, pr.mass as int));
    add3(v3(parts[i].velocity), scale3(acc, pr.delta_time as int))
}

/// The position after integration: the already-updated velocity applied
/// for the time delta (the semi-implicit rule).
pub open spec fn integrated_position(pr: SimulationParameters, parts: Seq<Particle>, i: int) -> (
    int,
    int,
    int,
) {
    add3(v3(parts[i].position), scale3(integrated_velocity(pr, parts, i), pr.delta_time as int))
}

/// Collision resolution against the static sphere: a particle closer to
/// the center than the sum of the radii is pushed out to the surface along
/// the contact normal and loses the inward component of its velocity; a
/// particle at the exact center is pushed out along the vertical axis; a
/// particle already at or beyond the surface is untouched.
pub open spec fn resolve_sphere(
    s: Sphere,
    pradius: int,
    pos: (int, int, int),
    vel: (int, int, int),
) -> ((int, int, int), (int, int, int)) {
    let top = sub3(pos, v3(s.center));
    let dist = len3(top);
    let thr = s.radius + pradius;
    if dist >= thr {
        (pos, vel)
    } else {
        let n = if dist == 0 {
            (0int, 1000int, 0int)
        } else {
            unit3(top)
        };
        let pos2 = add3(v3(s.center), scale3(n, thr));
        let vn = dot3(vel, n);
        let vel2 = if vn < 0 {
            sub3(vel, scale3(n, vn))
        } else {
            vel
        };
        (pos2, vel2)
    }
}

/// One full step of particle `i` against the pre-step buffer: integration
/// of the accumulated forces, then collision resolution, so a particle
/// never ends the step inside the sphere.
pub open spec fn step_result(pr: SimulationParameters, parts: Seq<Particle>, i: int) -> (
    (int, int, int),
    (int, int, int),
) {
    resolve_sphere(
        pr.sphere,
        pr.particle_radius as int,
        integrated_position(pr, parts, i),
        integrated_velocity(pr, parts, i),
    )
}

/// Particle `q` is the stepped image of particle `i` of the pre-step
/// buffer: new position and velocity per the model, neighbors untouched.
pub open spec fn step_match(
    pr: SimulationParameters,
    parts: Seq<Particle>,
    q: Particle,
    i: int,
) -> bool {
    &&& v3(q.position) == step_result(pr, parts, i).0
    &&& v3(q.velocity) == step_result(pr, parts, i).1
    &&& q.neighbors == parts[i].neighbors
}

/// The whole post-step buffer is the image of the pre-step buffer: every
/// particle is stepped against the same pre-step snapshot (the double
/// buffering the step scheduler must guarantee).
pub open spec fn step_rel(
    pr: SimulationParameters,
    pre: Seq<Particle>,
    post: Seq<Particle>,
) -> bool {
    &&& post.len() == pre.len()
    &&& forall|i: int| 0 <= i < pre.len() ==> step_match(pr, pre, #[trigger] post[i], i)
}

/// The spring contribution of slot `k` of particle `i`, exact per
/// `spring_term` and bounded in every coordinate.
fn spring_term_exec(pr: &SimulationParameters, parts: &Vec<Particle>, i: usize, k: usize) -> (t:
    Vec3)
    requires
        params_wf(*pr),
        buffer_wf(parts@),
        i < parts@.len(),
        k < 4,
    ensures
        v3(t) == spring_term(*pr, parts@, i as int, k as int),
        bounded3(v3(t), 110_000_000_000_000),
{
    let nb: u32 = parts[i].neighbors[k];
    if nb == NO_NEIGHBOR {
        return Vec3 { x: 0, y: 0, z: 0 };
    }
    proof {
        assert(particle_wf(parts@[i as int], parts@.len() as int));
    }
    let q: Particle = parts[nb as usize];
    let p: Particle = parts[i];
    proof {
        assert(particle_wf(parts@[nb as int], parts@.len() as int));
    }
    let d: Vec3 = q.position.sub(p.position);
    let l: i64 = d.length_fx();
    if l == 0 {
        return Vec3 { x: 0, y: 0, z: 0 };
    }
    proof {
        lemma_norm_sq_le(v3(d), 20_000_000_000);
        lemma_square_le_root(l as int, norm_sq3(v3(d)), 34_999_999_999);
    }
    let u: Vec3 = d.normalized(l);
    let stretch: i64 = l - pr.rest_length;
    proof {
        lemma_mul_upper_bound(
            absi(pr.structural_stiffness as int),
            1_000_000,
            absi(stretch as int),
            45_000_000_000,
        );
    }
    let fs: i64 = mul_fx(pr.structural_stiffness, stretch);
    let rv: Vec3 = q.velocity.sub(p.velocity);
    proof {
        lemma_mul_upper_bound(absi(rv.x as int), 20_000_000_000, absi(u.x as int), 1000);
        lemma_mul_upper_bound(absi(rv.y as int), 20_000_000_000, absi(u.y as int), 1000);
        lemma_mul_upper_bound(absi(rv.z as int), 20_000_000_000, absi(u.z as int), 1000);
        lemma_abs_mul(rv.x as int, u.x as int);
        lemma_abs_mul(rv.y as int, u.y as int);
        lemma_abs_mul(rv.z as int, u.z as int);
        lemma_sdiv_le(rv.x as int * u.x as int, 1000, 20_000_000_000_000);
        lemma_sdiv_le(rv.y as int * u.y as int, 1000, 20_000_000_000_000);
        lemma_sdiv_le(rv.z as int * u.z as int, 1000, 20_000_000_000_000);
    }
    let dd: i64 = rv.dot_fx(u);
    proof {
        assert(absi(dd as int) <= 60_000_000_000);
        lemma_mul_upper_bound(
            absi(pr.damping_factor as int),
            1_000_000,
            absi(dd as int),
            60_000_000_000,
        );
    }
    let fd: i64 = mul_fx(pr.damping_factor, dd);
    let f_along: i64 = fs + fd;
    proof {
        lemma_mul_upper_bound(absi(u.x as int), 1000, absi(f_along as int), 105_000_000_000_000);
        lemma_mul_upper_bound(absi(u.y as int), 1000, absi(f_along as int), 105_000_000_000_000);
        lemma_mul_upper_bound(absi(u.z as int), 1000, absi(f_along as int), 105_000_000_000_000);
    }
    u.scale_fx(f_along)
}

/// Pushes a particle out of the sphere if it interpenetrates, exact per
/// `resolve_sphere`.
fn resolve_sphere_exec(s: &Sphere, pradius: i64, pos: Vec3, vel: Vec3) -> (r: (Vec3, Vec3))
    requires
        crate::params::sphere_wf(*s),
        0 <= pradius <= MAX_COORD,
        bounded3(v3(pos), 1_000_000_000_000_000_000),
        bounded3(v3(vel), 1_000_000_000_000_000_000),
    ensures
        v3(r.0) == resolve_sphere(*s, pradius as int, v3(pos), v3(vel)).0,
        v3(r.1) == resolve_sphere(*s, pradius as int, v3(pos), v3(vel)).1,
        bounded3(v3(r.0), 2_000_000_000_000_000_000),
        bounded3(v3(r.1), 4_000_000_000_000_000_000),
{
    let top: Vec3 = pos.sub(s.center);
    let dist: i64 = top.length_fx();
    let thr: i64 = s.radius + pradius;
    if dist >= thr {
        return (pos, vel);
    }
    let n: Vec3 = if dist == 0 {
        Vec3 { x: 0, y: 1000, z: 0 }
    } else {
        top.normalized(dist)
    };
    proof {
        lemma_mul_upper_bound(absi(n.x as int), 1000, absi(thr as int), 20_000_000_000);
        lemma_mul_upper_bound(absi(n.y as int), 1000, absi(thr as int), 20_000_000_000);
        lemma_mul_upper_bound(absi(n.z as int), 1000, absi(thr as int), 20_000_000_000);
    }
    let off: Vec3 = n.scale_fx(thr);
    let p2: Vec3 = s.center.add(off);
    proof {
        lemma_mul_upper_bound(
            absi(vel.x as int),
            1_000_000_000_000_000_000,
            absi(n.x as int),
            1000,
        );
        lemma_mul_upper_bound(
            absi(vel.y as int),
            1_000_000_000_000_000_000,
            absi(n.y as int),
            1000,
        );
        lemma_mul_upper_bound(
            absi(vel.z as int),
            1_000_000_000_000_000_000,
            absi(n.z as int),
            1000,
        );
        lemma_abs_mul(vel.x as int, n.x as int);
        lemma_abs_mul(vel.y as int, n.y as int);
        lemma_abs_mul(vel.z as int, n.z as int);
        lemma_sdiv_le(vel.x as int * n.x as int, 1000, 1_000_000_000_000_000_000_000);
        lemma_sdiv_le(vel.y as int * n.y as int, 1000, 1_000_000_000_000_000_000_000);
        lemma_sdiv_le(vel.z as int * n.z as int, 1000, 1_000_000_000_000_000_000_000);
    }
    let vn: i64 = vel.dot_fx(n);
    let v2: Vec3 = if vn < 0 {
        proof {
            assert(absi(vn as int) <= 3_000_000_000_000_000_000);
            lemma_mul_upper_bound(
                absi(n.x as int),
                1000,
                absi(vn as int),
                3_000_000_000_000_000_000,
            );
            lemma_mul_upper_bound(
                absi(n.y as int),
                1000,
                absi(vn as int),
                3_000_000_000_000_000_000,
            );
            lemma_mul_upper_bound(
                absi(n.z as int),
                1000,
                absi(vn as int),
                3_000_000_000_000_000_000,
            );
        }
        vel.sub(n.scale_fx(vn))
    } else {
        vel
    };
    (p2, v2)
}

/// One kernel pass for particle `i`: accumulates the spring forces from
/// the pre-step buffer, applies friction, integrates, resolves the sphere
/// collision, and returns the stepped particle. Reads only the pre-step
/// buffer, so callers stepping every particle from one snapshot satisfy
/// the read/write discipline by construction.
#[verifier::rlimit(100)]
pub fn step_particle(pr: &SimulationParameters, parts: &Vec<Particle>, i: usize) -> (p: Particle)
    requires
        params_wf(*pr),
        buffer_wf(parts@),
        i < parts@.len(),
    ensures
        step_match(*pr, parts@, p, i as int),
{
    let t0: Vec3 = spring_term_exec(pr, parts, i, 0);
    let t1: Vec3 = spring_term_exec(pr, parts, i, 1);
    let t2: Vec3 = spring_term_exec(pr, parts, i, 2);
    let t3: Vec3 = spring_term_exec(pr, parts, i, 3);
    let s01: Vec3 = t0.add(t1);
    let s23: Vec3 = t2.add(t3);
    let springs: Vec3 = s01.add(s23);
    proof {
        assert(particle_wf(parts@[i as int], parts@.len() as int));
        let vel = v3(parts@[i as int].velocity);
        lemma_mul_upper_bound(
            absi(vel.0),
            MAX_COORD as int,
            absi(pr.friction_factor as int),
            1_000_000,
        );
        lemma_mul_upper_bound(
            absi(vel.1),
            MAX_COORD as int,
            absi(pr.friction_factor as int),
            1_000_000,
        );
        lemma_mul_upper_bound(
            absi(vel.2),
            MAX_COORD as int,
            absi(pr.friction_factor as int),
            1_000_000,
        );
    }
    let fr: Vec3 = parts[i].velocity.scale_fx(pr.friction_factor);
    let f: Vec3 = springs.sub(fr);
    proof {
        lemma_grow_le(9_223_372_036_854_775_807, pr.mass as int);
        lemma_mul_is_commutative(pr.mass as int, 9_223_372_036_854_775_807);
    }
    let ax: i64 = div_fx(f.x, pr.mass);
    let ay: i64 = div_fx(f.y, pr.mass);
    let az: i64 = div_fx(f.z, pr.mass);
    proof {
        lemma_grow_le(absi(ax as int), pr.mass as int);
        lemma_grow_le(absi(ay as int), pr.mass as int);
        lemma_grow_le(absi(az as int), pr.mass as int);
        lemma_mul_upper_bound(
            absi(ax as int),
            450_000_000_000_000_000,
            absi(pr.delta_time as int),
            1000,
        );
        lemma_mul_upper_bound(
            absi(ay as int),
            450_000_000_000_000_000,
            absi(pr.delta_time as int),
            1000,
        );
        lemma_mul_upper_bound(
            absi(az as int),
            450_000_000_000_000_000,
            absi(pr.delta_time as int),
            1000,
        );
    }
    let acc: Vec3 = Vec3 { x: ax, y: ay, z: az };
    let dv: Vec3 = acc.scale_fx(pr.delta_time);
    let v1: Vec3 = parts[i].velocity.add(dv);
    proof {
        lemma_mul_upper_bound(
            absi(v1.x as int),
            460_000_000_000_000_000,
            absi(pr.delta_time as int),
            1000,
        );
        lemma_mul_upper_bound(
            absi(v1.y as int),
            460_000_000_000_000_000,
            absi(pr.delta_time as int),
            1000,
        );
        lemma_mul_upper_bound(
            absi(v1.z as int),
            460_000_000_000_000_000,
            absi(pr.delta_time as int),
            1000,
        );
    }
    let dp: Vec3 = v1.scale_fx(pr.delta_time);
    let p1: Vec3 = parts[i].position.add(dp);
    let (p2, v2): (Vec3, Vec3) = resolve_sphere_exec(&pr.sphere, pr.particle_radius, p1, v1);
    Particle { position: p2, velocity: v2, neighbors: parts[i].neighbors }
}

/// Where particle `i` of a fresh grid sits: spaced along the grid axes,
/// centered around the origin, at the configured height.
pub open spec fn grid_pos(i: int, r: int, spacing: int, height: int) -> (int, int, int) {
    let off = sdiv(r * spacing, 2);
    ((i % r) * spacing - off, height, (i / r) * spacing - off)
}

/// The simulation: the particle buffer together with the configuration it
/// was built with. The buffer is both input and output of every step.
#[derive(Debug)]
pub struct SimulationState {
    pub particles: Vec<Particle>,
    pub row_size: u32,
    pub particle_radius: i64,
    pub sphere: Sphere,
    pub constants: PhysicalConstants,
}

impl SimulationState {
    /// A well-formed simulation: a full square grid of well-formed
    /// particles whose neighbor slots are exactly the grid topology, and a
    /// configuration within the representable range.
    pub open spec fn wf(self) -> bool {
        &&& 1 <= self.row_size <= MAX_GRID_ROW
        &&& self.particles@.len() == (self.row_size as int) * (self.row_size as int)
        &&& buffer_wf(self.particles@)
        &&& forall|i: int, k: int|
            0 <= i < self.particles@.len() && 0 <= k < 4 ==> (#[trigger] self.particles@[i].neighbors@[k])
                as int == nbr_spec(i, self.row_size as int, k)
        &&& 0 <= self.particle_radius <= MAX_COORD
        &&& sphere_wf(self.sphere)
        &&& constants_wf(self.constants)
    }

    /// The parameter snapshot a step with the given time delta works under.
    pub open spec fn step_params(self, delta_time: i64) -> SimulationParameters {
        snapshot_spec(
            self.constants,
            delta_time,
            ((self.row_size as int) * (self.row_size as int)) as u32,
            self.particle_radius,
            self.sphere,
        )
    }

    /// Whether every particle's coordinates are back within the range a
    /// further step requires (a violently diverging configuration can push
    /// them out; the host checks before stepping again).
    pub fn in_range(&self) -> (r: bool)
        ensures
            r == buffer_wf(self.particles@),
    {
        let n: usize = self.particles.len();
        let mut j: usize = 0;
        while j < n
            invariant
                j <= n,
                n == self.particles@.len(),
                forall|i: int|
                    0 <= i < j ==> particle_wf(
                        #[trigger] self.particles@[i],
                        self.particles@.len() as int,
                    ),
            decreases n - j,
        {
            let p: &Particle = &self.particles[j];
            if !(p.position.x >= -MAX_COORD && p.position.x <= MAX_COORD && p.position.y
                >= -MAX_COORD && p.position.y <= MAX_COORD && p.position.z >= -MAX_COORD
                && p.position.z <= MAX_COORD && p.velocity.x >= -MAX_COORD && p.velocity.x
                <= MAX_COORD && p.velocity.y >= -MAX_COORD && p.velocity.y <= MAX_COORD
                && p.velocity.z >= -MAX_COORD && p.velocity.z <= MAX_COORD) {
                return false;
            }
            let mut k: usize = 0;
            while k < 4
                invariant
                    k <= 4,
                    n == self.particles@.len(),
                    j < n,
                    forall|m: int|
                        0 <= m < k ==> ((#[trigger] self.particles@[j as int].neighbors@[m])
                            == NO_NEIGHBOR || (self.particles@[j as int].neighbors@[m] as int) < n),
                decreases 4 - k,
            {
                let nb: u32 = self.particles[j].neighbors[k];
                if nb != NO_NEIGHBOR && nb as usize >= n {
                    return false;
                }
                k = k + 1;
            }
            j = j + 1;
        }
        true
    }

    /// Advances the simulation by one step: refreshes the parameter
    /// snapshot with the new time delta, steps every particle against the
    /// pre-step buffer, and only then installs the new buffer, so no
    /// particle ever reads a half-updated neighbor (double buffering).
    pub fn advance(&mut self, delta_time: i64)
        requires
            old(self).wf(),
            1 <= delta_time <= MAX_DELTA,
        ensures
            final(self).row_size == old(self).row_size,
            final(self).particle_radius == old(self).particle_radius,
            final(self).sphere == old(self).sphere,
            final(self).constants == old(self).constants,
            step_rel(
                old(self).step_params(delta_time),
                old(self).particles@,
                final(self).particles@,
            ),
    {
        proof {
            lemma_mul_upper_bound(self.row_size as int, 1024, self.row_size as int, 1024);
        }
        let pr: SimulationParameters = snapshot(
            &self.constants,
            delta_time,
            self.row_size * self.row_size,
            self.particle_radius,
            self.sphere,
        );
        let n: usize = self.particles.len();
        let mut next: Vec<Particle> = Vec::new();
        let mut j: usize = 0;
        while j < n
            invariant
                j <= n,
                *self == *old(self),
                n == self.particles@.len(),
                self.wf(),
                1 <= delta_time <= MAX_DELTA,
                pr == old(self).step_params(delta_time),
                params_wf(pr),
                next@.len() == j as int,
                forall|i: int|
                    0 <= i < j ==> step_match(pr, self.particles@, #[trigger] next@[i], i),
            decreases n - j,
        {
            let p: Particle = step_particle(&pr, &self.particles, j);
            next.push(p);
            j = j + 1;
        }
        self.particles = next;
    }
}

/// Builds a fresh simulation: a `row_size x row_size` grid of particles,
/// spaced and centered on the two grid axes at the given height, with zero
/// initial velocity and the grid's neighbor topology, owning its buffer.
/// A grid without rows, a non-positive mass and a degenerate sphere are
/// rejected, in that order of checking.
pub fn initialize(
    row_size: u32,
    spacing: i64,
    initial_height: i64,
    particle_radius: i64,
    sphere: Sphere,
    constants: PhysicalConstants,
) -> (r: Result<SimulationState, ConfigError>)
    requires
        row_size <= MAX_GRID_ROW,
        0 <= spacing <= 9_000_000,
        absi(initial_height as int) <= MAX_COORD as int,
        0 <= particle_radius <= MAX_COORD,
        bounded3(v3(sphere.center), MAX_COORD as int),
        sphere.radius <= MAX_COORD,
        constants.mass <= MAX_COORD,
        0 <= constants.rest_length <= MAX_COORD,
        0 <= constants.structural_stiffness <= MAX_COEFF,
        0 <= constants.shear_stiffness <= MAX_COEFF,
        0 <= constants.bend_stiffness <= MAX_COEFF,
        0 <= constants.damping_factor <= MAX_COEFF,
        0 <= constants.friction_factor <= MAX_COEFF,
    ensures
        row_size == 0 ==> r == Result::<SimulationState, ConfigError>::Err(
            ConfigError::ZeroRowSize,
        ),
        row_size >= 1 && constants.mass <= 0 ==> r == Result::<SimulationState, ConfigError>::Err(
            ConfigError::NonPositiveMass,
        ),
        row_size >= 1 && constants.mass > 0 && sphere.radius <= 0 ==> r == Result::<
            SimulationState,
            ConfigError,
        >::Err(ConfigError::DegenerateSphereRadius),
        row_size >= 1 && constants.mass > 0 && sphere.radius > 0 ==> {
            &&& r is Ok
            &&& r->Ok_0.wf()
            &&& r->Ok_0.row_size == row_size
            &&& r->Ok_0.particle_radius == particle_radius
            &&& r->Ok_0.sphere == sphere
            &&& r->Ok_0.constants == constants
            &&& forall|i: int|
                0 <= i < r->Ok_0.particles@.len() ==> v3(
                    (#[trigger] r->Ok_0.particles@[i]).position,
                ) == grid_pos(i, row_size as int, spacing as int, initial_height as int) && v3(
                    r->Ok_0.particles@[i].velocity,
                ) == (0int, 0int, 0int)
        },
{
    if row_size == 0 {
        return Err(ConfigError::ZeroRowSize);
    }
    if constants.mass <= 0 {
        return Err(ConfigError::NonPositiveMass);
    }
    if sphere.radius <= 0 {
        return Err(ConfigError::DegenerateSphereRadius);
    }
    proof {
        lemma_mul_upper_bound(row_size as int, 1024, row_size as int, 1024);
        lemma_mul_upper_bound(row_size as int, 1024, spacing as int, 9_000_000);
    }
    let count: u32 = row_size * row_size;
    let off: i64 = ((row_size as u64 * spacing as u64) / 2) as i64;
    let mut particles: Vec<Particle> = Vec::new();
    let mut idx: u32 = 0;
    while idx < count
        invariant
            1 <= row_size <= MAX_GRID_ROW,
            count as int == (row_size as int) * (row_size as int),
            count <= 1_048_576,
            0 <= spacing <= 9_000_000,
            off as int == sdiv((row_size as int) * (spacing as int), 2),
            0 <= off <= 4_608_000_000,
            absi(initial_height as int) <= MAX_COORD as int,
            idx <= count,
            particles@.len() == idx as int,
            forall|i: int|
                0 <= i < idx as int ==> v3((#[trigger] particles@[i]).position) == grid_pos(
                    i,
                    row_size as int,
                    spacing as int,
                    initial_height as int,
                ),
            forall|i: int|
                0 <= i < idx as int ==> v3((#[trigger] particles@[i]).velocity) == (
                    0int,
                    0int,
                    0int,
                ),
            forall|i: int, k: int|
                0 <= i < idx as int && 0 <= k < 4 ==> (
                #[trigger] particles@[i].neighbors@[k]) as int == nbr_spec(
                    i,
                    row_size as int,
                    k,
                ),
            forall|i: int|
                0 <= i < idx as int ==> particle_wf(#[trigger] particles@[i], count as int),
        decreases count as int - idx as int,
    {
        proof {
            lemma_grid(idx as int, row_size as int);
            lemma_mul_upper_bound(
                (idx as int) % (row_size as int),
                1023,
                spacing as int,
                9_000_000,
            );
            lemma_mul_upper_bound(
                (idx as int) / (row_size as int),
                1023,
                spacing as int,
                9_000_000,
            );
        }
        let x: u32 = idx % row_size;
        let z: u32 = idx / row_size;
        let px: i64 = (x as i64) * spacing - off;
        let pz: i64 = (z as i64) * spacing - off;
        let nbrs: [u32; 4] = calculate_neighbors(idx, row_size);
        proof {
            assert forall|k: int|
                0 <= k < 4 && nbr_spec(idx as int, row_size as int, k) != NO_NEIGHBOR as int
                implies 0 <= nbr_spec(idx as int, row_size as int, k) < count as int by {
                lemma_neighbor_symmetry(row_size as int, idx as int, k);
            }
        }
        particles.push(
            Particle {
                position: Vec3 { x: px, y: initial_height, z: pz },
                velocity: Vec3 { x: 0, y: 0, z: 0 },
                neighbors: nbrs,
            },
        );
        idx = idx + 1;
    }
    Ok(SimulationState { particles, row_size, particle_radius, sphere, constants })
}

/// A step keeps the grid: the stepped state differs from a well-formed one
/// only by its particle buffer, whose neighbor slots the step relation
/// preserves, so once its coordinates check back in range the stepped
/// state is well formed again and can be stepped further.
pub proof fn lemma_step_keeps_grid(
    s1: SimulationState,
    s2: SimulationState,
    pr: SimulationParameters,
)
    requires
        s1.wf(),
        s2.row_size == s1.row_size,
        s2.particle_radius == s1.particle_radius,
        s2.sphere == s1.sphere,
        s2.constants == s1.constants,
        step_rel(pr, s1.particles@, s2.particles@),
        buffer_wf(s2.particles@),
    ensures
        s2.wf(),
{
    assert forall|i: int, k: int|
        0 <= i < s2.particles@.len() && 0 <= k < 4 implies (
    #[trigger] s2.particles@[i].neighbors@[k]) as int == nbr_spec(i, s2.row_size as int, k) by {
        assert(step_match(pr, s1.particles@, s2.particles@[i], i));
    }
}

/// A stationary particle all of whose live springs measure exactly the
/// rest length, standing at or beyond the sphere's reach.
pub open spec fn at_rest(pr: SimulationParameters, parts: Seq<Particle>, i: int) -> bool {
    let p = parts[i];
    &&& v3(p.velocity) == (0int, 0int, 0int)
    &&& forall|k: int|
        0 <= k < 4 ==> ((#[trigger] p.neighbors@[k]) == NO_NEIGHBOR || {
            let q = parts[p.neighbors@[k] as int];
            &&& v3(q.velocity) == (0int, 0int, 0int)
            &&& len3(sub3(v3(q.position), v3(p.position))) == pr.rest_length as int
        })
    &&& len3(sub3(v3(p.position), v3(pr.sphere.center))) >= pr.sphere.radius + pr.particle_radius
}

/// Rest-length equilibrium: a step leaves a particle at rest exactly where
/// it stands, still stationary — the spring force vanishes at the rest
/// length, damping and friction vanish on zero velocities, and the sphere
/// is out of reach.
pub proof fn lemma_rest_equilibrium(pr: SimulationParameters, parts: Seq<Particle>, i: int)
    requires
        0 <= i < parts.len(),
        1 <= pr.mass,
        at_rest(pr, parts, i),
    ensures
        step_result(pr, parts, i).0 == v3(parts[i].position),
        step_result(pr, parts, i).1 == v3(parts[i].velocity),
{
    let p = parts[i];
    assert forall|k: int| 0 <= k < 4 implies spring_term(pr, parts, i, k) == (0int, 0int, 0int) by {
        if p.neighbors@[k] != NO_NEIGHBOR {
            let q = parts[p.neighbors@[k] as int];
            let d = sub3(v3(q.position), v3(p.position));
            let l = len3(d);
            if l != 0 {
                let u = unit3(d);
                assert(fxm(pr.structural_stiffness as int, l - pr.rest_length as int) == 0);
                assert(sub3(v3(q.velocity), v3(p.velocity)) == (0int, 0int, 0int));
                assert(dot3((0int, 0int, 0int), u) == 0);
                assert(fxm(pr.damping_factor as int, 0) == 0);
                assert(u.0 * 0 == 0 && u.1 * 0 == 0 && u.2 * 0 == 0);
                assert(fxm(u.0, 0) == 0 && fxm(u.1, 0) == 0 && fxm(u.2, 0) == 0);
                assert(scale3(u, 0) == (0int, 0int, 0int));
            }
        }
    }
    assert(scale3(v3(p.velocity), pr.friction_factor as int) == (0int, 0int, 0int));
    assert(force_total(pr, parts, i) == (0int, 0int, 0int));
    lemma_div_of0(pr.mass as int);
    assert(fxd(0, pr.mass as int) == 0);
    assert(integrated_velocity(pr, parts, i) == (0int, 0int, 0int));
    assert(scale3((0int, 0int, 0int), pr.delta_time as int) == (0int, 0int, 0int));
    assert(integrated_position(pr, parts, i) == v3(p.position));
}

/// Every particle of the buffer is at rest.
pub open spec fn all_at_rest(pr: SimulationParameters, parts: Seq<Particle>) -> bool {
    forall|i: int| 0 <= i < parts.len() ==> at_rest(pr, parts, i)
}

/// A buffer at rest is a fixed point of the step relation: the stepped
/// buffer is the same buffer, and therefore still at rest, for any number
/// of further steps.
pub proof fn lemma_rest_buffer_fixed(
    pr: SimulationParameters,
    pre: Seq<Particle>,
    post: Seq<Particle>,
)
    requires
        1 <= pr.mass,
        all_at_rest(pr, pre),
        step_rel(pr, pre, post),
    ensures
        post == pre,
        all_at_rest(pr, post),
{
    assert forall|i: int| 0 <= i < pre.len() implies post[i] == pre[i] by {
        lemma_rest_equilibrium(pr, pre, i);
        assert(step_match(pr, pre, post[i], i));
        assert(post[i].position.x == pre[i].position.x);
        assert(post[i].position.y == pre[i].position.y);
        assert(post[i].position.z == pre[i].position.z);
        assert(post[i].velocity.x == pre[i].velocity.x);
        assert(post[i].velocity.y == pre[i].velocity.y);
        assert(post[i].velocity.z == pre[i].velocity.z);
    }
    assert(post =~= pre);
}

/// Determinism: one pre-step buffer and one parameter snapshot admit a
/// single post-step buffer, so identical initial states fed identical
/// time-delta sequences trace identical trajectories.
pub proof fn lemma_step_deterministic(
    pr: SimulationParameters,
    pre: Seq<Particle>,
    post1: Seq<Particle>,
    post2: Seq<Particle>,
)
    requires
        step_rel(pr, pre, post1),
        step_rel(pr, pre, post2),
    ensures
        post1 == post2,
{
    assert forall|i: int| 0 <= i < post1.len() implies post1[i] == post2[i] by {
        assert(step_match(pr, pre, post1[i], i));
        assert(step_match(pr, pre, post2[i], i));
        assert(post1[i].position.x == post2[i].position.x);
        assert(post1[i].position.y == post2[i].position.y);
        assert(post1[i].position.z == post2[i].position.z);
        assert(post1[i].velocity.x == post2[i].velocity.x);
        assert(post1[i].velocity.y == post2[i].velocity.y);
        assert(post1[i].velocity.z == post2[i].velocity.z);
    }
    assert(post1 =~= post2);
}

/// Pushing out along the truncated unit direction lands the particle in a
/// narrow band at the surface: the squared length of the scaled offset
/// falls short of the squared combined radius only by the fixed-point
/// truncation terms.
proof fn lemma_pushout_offset_bound(d: (int, int, int), thr: int)
    requires
        1 <= len3(d),
        0 <= thr,
    ensures
        1_000_000 * norm_sq3(scale3(unit3(d), thr)) >= 994_000 * (thr * thr) - 6_000_000 * thr,
{
    let s = len3(d);
    let nsq = norm_sq3(d);
    lemma_abs_mul(d.0, d.0);
    lemma_abs_mul(d.1, d.1);
    lemma_abs_mul(d.2, d.2);
    lemma_isqrt_property(nsq);
    lemma_square_le_root(d.0, nsq, s);
    lemma_square_le_root(d.1, nsq, s);
    lemma_square_le_root(d.2, nsq, s);
    let n = unit3(d);
    lemma_abs_mul(d.0, 1000);
    lemma_abs_mul(d.1, 1000);
    lemma_abs_mul(d.2, 1000);
    lemma_trunc_sq_bounds(d.0 * 1000, s);
    lemma_trunc_sq_bounds(d.1 * 1000, s);
    lemma_trunc_sq_bounds(d.2 * 1000, s);
    lemma_cancel_le(absi(n.0), 1000, s);
    lemma_cancel_le(absi(n.1), 1000, s);
    lemma_cancel_le(absi(n.2), 1000, s);
    lemma_abs_mul(n.0, n.0);
    lemma_abs_mul(n.1, n.1);
    lemma_abs_mul(n.2, n.2);
    // the truncated direction keeps nearly the full scale: its squared
    // norm is at least 994_000 of SCALE squared's 1_000_000
    let big_n = n.0 * n.0 + n.1 * n.1 + n.2 * n.2;
    assert((s * absi(n.0)) * (s * absi(n.0)) == (s * s) * (n.0 * n.0)) by (nonlinear_arith)
        requires
            absi(n.0) * absi(n.0) == n.0 * n.0,
    ;
    assert((s * absi(n.1)) * (s * absi(n.1)) == (s * s) * (n.1 * n.1)) by (nonlinear_arith)
        requires
            absi(n.1) * absi(n.1) == n.1 * n.1,
    ;
    assert((s * absi(n.2)) * (s * absi(n.2)) == (s * s) * (n.2 * n.2)) by (nonlinear_arith)
        requires
            absi(n.2) * absi(n.2) == n.2 * n.2,
    ;
    assert((d.0 * 1000) * (d.0 * 1000) == 1_000_000 * (d.0 * d.0)) by (nonlinear_arith);
    assert((d.1 * 1000) * (d.1 * 1000) == 1_000_000 * (d.1 * d.1)) by (nonlinear_arith);
    assert((d.2 * 1000) * (d.2 * 1000) == 1_000_000 * (d.2 * d.2)) by (nonlinear_arith);
    assert(2 * s * (absi(d.0) * 1000) <= 2000 * (s * s)) by (nonlinear_arith)
        requires
            0 <= absi(d.0) <= s,
    ;
    assert(2 * s * (absi(d.1) * 1000) <= 2000 * (s * s)) by (nonlinear_arith)
        requires
            0 <= absi(d.1) <= s,
    ;
    assert(2 * s * (absi(d.2) * 1000) <= 2000 * (s * s)) by (nonlinear_arith)
        requires
            0 <= absi(d.2) <= s,
    ;
    assert((s * s) * big_n == (s * s) * (n.0 * n.0) + (s * s) * (n.1 * n.1) + (s * s) * (n.2
        * n.2)) by (nonlinear_arith)
        requires
            big_n == n.0 * n.0 + n.1 * n.1 + n.2 * n.2,
    ;
    assert((s * s) * big_n >= 994_000 * (s * s));
    assert(s * s >= 1) by (nonlinear_arith)
        requires
            s >= 1,
    ;
    lemma_cancel_le(994_000, big_n, s * s);
    // scaling that direction by the combined radius keeps the same share
    let off = scale3(n, thr);
    lemma_trunc_sq_bounds(n.0 * thr, 1000);
    lemma_trunc_sq_bounds(n.1 * thr, 1000);
    lemma_trunc_sq_bounds(n.2 * thr, 1000);
    lemma_abs_mul(n.0, thr);
    lemma_abs_mul(n.1, thr);
    lemma_abs_mul(n.2, thr);
    lemma_abs_mul(off.0, off.0);
    lemma_abs_mul(off.1, off.1);
    lemma_abs_mul(off.2, off.2);
    assert((1000 * absi(off.0)) * (1000 * absi(off.0)) == 1_000_000 * (off.0 * off.0))
        by (nonlinear_arith)
        requires
            absi(off.0) * absi(off.0) == off.0 * off.0,
    ;
    assert((1000 * absi(off.1)) * (1000 * absi(off.1)) == 1_000_000 * (off.1 * off.1))
        by (nonlinear_arith)
        requires
            absi(off.1) * absi(off.1) == off.1 * off.1,
    ;
    assert((1000 * absi(off.2)) * (1000 * absi(off.2)) == 1_000_000 * (off.2 * off.2))
        by (nonlinear_arith)
        requires
            absi(off.2) * absi(off.2) == off.2 * off.2,
    ;
    assert((n.0 * thr) * (n.0 * thr) == (n.0 * n.0) * (thr * thr)) by (nonlinear_arith);
    assert((n.1 * thr) * (n.1 * thr) == (n.1 * n.1) * (thr * thr)) by (nonlinear_arith);
    assert((n.2 * thr) * (n.2 * thr) == (n.2 * n.2) * (thr * thr)) by (nonlinear_arith);
    assert(2 * 1000 * (absi(n.0) * thr) <= 2_000_000 * thr) by (nonlinear_arith)
        requires
            0 <= absi(n.0) <= 1000,
            0 <= thr,
    ;
    assert(2 * 1000 * (absi(n.1) * thr) <= 2_000_000 * thr) by (nonlinear_arith)
        requires
            0 <= absi(n.1) <= 1000,
            0 <= thr,
    ;
    assert(2 * 1000 * (absi(n.2) * thr) <= 2_000_000 * thr) by (nonlinear_arith)
        requires
            0 <= absi(n.2) <= 1000,
            0 <= thr,
    ;
    assert((n.0 * n.0) * (thr * thr) + (n.1 * n.1) * (thr * thr) + (n.2 * n.2) * (thr * thr)
        == big_n * (thr * thr)) by (nonlinear_arith)
        requires
            big_n == n.0 * n.0 + n.1 * n.1 + n.2 * n.2,
    ;
    assert(big_n * (thr * thr) >= 994_000 * (thr * thr)) by (nonlinear_arith)
        requires
            big_n >= 994_000,
            thr * thr >= 0,
    ;
    assert(thr * thr >= 0) by (nonlinear_arith);
}

/// Sphere non-penetration: whatever position integration hands it, after
/// collision resolution a particle's distance from the sphere's center is
/// at least the combined radius, up to the fixed-point tolerance of the
/// push to the surface (under half a percent of the combined radius).
pub proof fn lemma_resolve_non_penetration(
    s: Sphere,
    pradius: int,
    pos: (int, int, int),
    vel: (int, int, int),
)
    requires
        100 <= s.radius + pradius,
    ensures
        1000 * (len3(sub3(resolve_sphere(s, pradius, pos, vel).0, v3(s.center))) + 1) > 996 * (
        s.radius + pradius) - 3000,
{
    let thr = s.radius + pradius;
    let top = sub3(pos, v3(s.center));
    let dist = len3(top);
    lemma_abs_mul(top.0, top.0);
    lemma_abs_mul(top.1, top.1);
    lemma_abs_mul(top.2, top.2);
    lemma_isqrt_property(norm_sq3(top));
    if dist >= thr {
        assert(sub3(resolve_sphere(s, pradius, pos, vel).0, v3(s.center)) == top);
    } else if dist == 0 {
        let off = scale3((0int, 1000int, 0int), thr);
        assert(off == (0int, thr, 0int));
        assert(sub3(add3(v3(s.center), off), v3(s.center)) == off);
        assert(norm_sq3(off) == thr * thr) by (nonlinear_arith)
            requires
                off.0 == 0,
                off.1 == thr,
                off.2 == 0,
                norm_sq3(off) == off.0 * off.0 + off.1 * off.1 + off.2 * off.2,
        ;
        assert(thr * thr < (thr + 1) * (thr + 1)) by (nonlinear_arith)
            requires
                thr >= 0,
        ;
        lemma_isqrt_unique(thr * thr, thr);
    } else {
        lemma_pushout_offset_bound(top, thr);
        let off = scale3(unit3(top), thr);
        assert(sub3(add3(v3(s.center), off), v3(s.center)) == off);
        let dnew = len3(off);
        lemma_abs_mul(off.0, off.0);
        lemma_abs_mul(off.1, off.1);
        lemma_abs_mul(off.2, off.2);
        lemma_isqrt_property(norm_sq3(off));
        if 1000 * (dnew + 1) <= 996 * thr - 3000 {
            assert((1000 * (dnew + 1)) * (1000 * (dnew + 1)) <= (996 * thr - 3000) * (996 * thr
                - 3000)) by (nonlinear_arith)
                requires
                    0 <= 1000 * (dnew + 1),
                    1000 * (dnew + 1) <= 996 * thr - 3000,
            ;
            assert((1000 * (dnew + 1)) * (1000 * (dnew + 1)) == 1_000_000 * ((dnew + 1) * (dnew
                + 1))) by (nonlinear_arith);
            assert((996 * thr - 3000) * (996 * thr - 3000) <= 994_000 * (thr * thr) - 6_000_000
                * thr) by (nonlinear_arith)
                requires
                    thr >= 100,
            ;
            assert(false);
        }
    }
}

/// Sphere non-penetration for a whole step: resolution runs after
/// integration, so every stepped particle ends the step at or beyond the
/// sphere's surface, up to the stated fixed-point tolerance.
pub proof fn lemma_step_non_penetration(pr: SimulationParameters, parts: Seq<Particle>, i: int)
    requires
        100 <= pr.sphere.radius + pr.particle_radius,
    ensures
        1000 * (len3(sub3(step_result(pr, parts, i).0, v3(pr.sphere.center))) + 1) > 996 * (
        pr.sphere.radius + pr.particle_radius) - 3000,
{
    lemma_resolve_non_penetration(
        pr.sphere,
        pr.particle_radius as int,
        integrated_position(pr, parts, i),
        integrated_velocity(pr, parts, i),
    );
}

/// Collision resolution is idempotent on resting particles: one already at
/// or beyond the sphere's surface is left untouched, so reapplying the
/// resolution to an already-resolved resting particle changes nothing.
pub proof fn lemma_resolve_resting_fixed(
    s: Sphere,
    pradius: int,
    pos: (int, int, int),
    vel: (int, int, int),
)
    requires
        len3(sub3(pos, v3(s.center))) >= s.radius + pradius,
    ensures
        resolve_sphere(s, pradius, pos, vel) == (pos, vel),
{
}

} // verus!

