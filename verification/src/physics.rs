//! Pure physics kernels: gravitational acceleration, circular and escape
//! velocity (single-source and barycentric), the symplectic Euler step, and
//! the energy formulas.
//!
//! Distances are in kilometers, masses in kilograms, times in seconds;
//! energies come out in megajoules. Every kernel's result is pinned down
//! exactly by a `spec_*` mirror over the scalar arithmetic.

use vstd::prelude::*;

verus! {

use crate::scalar::Scalar;
use crate::scalar::lemma_mul_sign;
use crate::scalar::lemma_div_sign;
use crate::scalar::lemma_sqrt_sign;
use crate::vector::Acceleration;
use crate::vector::Position;
use crate::vector::Vector;
use crate::vector::Vel;
use crate::vector::Velocity;
use crate::body::Body;

/// Newton's gravitational constant, 6.674e-11 N m^2 / kg^2.
pub open spec fn spec_g() -> Scalar {
    Scalar::spec_div(Scalar::spec_from_int(6674), Scalar::spec_from_int(100_000_000_000_000))
}

/// The gravitational constant converted for kilometer-based coordinates,
/// `G * 1e-6`.
pub open spec fn spec_g_km() -> Scalar {
    Scalar::spec_div(Scalar::spec_from_int(6674),
        Scalar::spec_from_int(100_000_000_000_000_000_000))
}

pub fn g() -> (s: Scalar)
    ensures
        s == spec_g(),
        s.wf(),
        !s.neg,
{
    let s = Scalar::from_ratio(6674, 100_000_000_000_000);
    proof {
        lemma_div_sign(Scalar::spec_from_int(6674), Scalar::spec_from_int(100_000_000_000_000));
        crate::scalar::lemma_norm_sign(false, 6674, 0);
    }
    s
}

pub fn g_km() -> (s: Scalar)
    ensures
        s == spec_g_km(),
        s.wf(),
        !s.neg,
{
    let s = Scalar::from_ratio(6674, 100_000_000_000_000_000_000);
    proof {
        lemma_div_sign(Scalar::spec_from_int(6674),
            Scalar::spec_from_int(100_000_000_000_000_000_000));
        crate::scalar::lemma_norm_sign(false, 6674, 0);
    }
    s
}

/// Magnitude of the circular-orbit velocity, `sqrt(G * M / (r * 1e9))`
/// (the 1e9 converts the result to km/s).
pub open spec fn spec_circular_velocity_magnitude(central_mass: Scalar, r: Scalar) -> Scalar {
    Scalar::spec_sqrt(Scalar::spec_div(Scalar::spec_mul(spec_g(), central_mass),
        Scalar::spec_mul(r, Scalar::spec_from_int(1_000_000_000))))
}

fn circular_velocity_magnitude(central_mass: Scalar, r: Scalar) -> (v: Scalar)
    requires
        central_mass.wf(),
        !central_mass.neg,
        r.wf(),
        !r.neg,
        !Scalar::spec_mul(r, Scalar::spec_from_int(1_000_000_000)).spec_is_zero(),
    ensures
        v == spec_circular_velocity_magnitude(central_mass, r),
        v.wf(),
        !v.neg,
{
    let gc = g();
    let billion = Scalar::from_int(1_000_000_000);
    let num = gc.mul(central_mass);
    let den = r.mul(billion);
    let q = num.div(den);
    proof {
        lemma_mul_sign(gc, central_mass);
        lemma_mul_sign(r, billion);
        lemma_div_sign(num, den);
        lemma_sqrt_sign(q);
    }
    q.sqrt()
}

/// Acceleration on a body at `orbital_pos` due to a source of mass
/// `central_mass` at `central_pos`:
/// `a = r * (-G_km * M / |r|^3) * 1e-3` with `r = orbital_pos - central_pos`,
/// so the acceleration points from the body toward the source.
pub open spec fn spec_gravitational_acceleration(central_pos: Position, orbital_pos: Position,
    central_mass: Scalar) -> Acceleration {
    let r = orbital_pos.spec_minus(central_pos);
    let m = r.spec_mag();
    let den = Scalar::spec_mul(Scalar::spec_mul(m, m), m);
    let factor = Scalar::spec_div(Scalar::spec_mul(spec_g_km().spec_neg(), central_mass), den);
    let cur_a = r.spec_scale(factor);
    let cur_a_km = cur_a.spec_scale(Scalar::spec_div(Scalar::spec_from_int(1),
        Scalar::spec_from_int(1000)));
    Vector { role: crate::vector::Acc, x: cur_a_km.x, y: cur_a_km.y }
}

/// The cube of the separation's magnitude; the driver must keep this nonzero
/// (bodies at the same point have no defined dynamics).
pub open spec fn spec_separation_cubed(central_pos: Position, orbital_pos: Position) -> Scalar {
    let m = orbital_pos.spec_minus(central_pos).spec_mag();
    Scalar::spec_mul(Scalar::spec_mul(m, m), m)
}

pub fn gravitational_acceleration(central_pos: Position, orbital_pos: Position,
    central_mass: Scalar) -> (a: Acceleration)
    requires
        central_pos.wf(),
        orbital_pos.wf(),
        central_mass.wf(),
        !spec_separation_cubed(central_pos, orbital_pos).spec_is_zero(),
    ensures
        a == spec_gravitational_acceleration(central_pos, orbital_pos, central_mass),
        a.wf(),
{
    let r = orbital_pos.minus(central_pos);
    let m = r.mag();
    let den = m.mul(m).mul(m);
    let gk = g_km();
    let factor = gk.negate().mul(central_mass).div(den);
    let cur_a = r.scale(factor);
    let cur_a_km = cur_a.scale(Scalar::from_ratio(1, 1000));
    Acceleration::from(cur_a_km)
}

/// The velocity giving a perfect circular orbit around a central mass that is
/// assumed not to move: magnitude `sqrt(G*M/(|r|*1e9))`, direction
/// perpendicular-clockwise to the unit radius vector (clockwise orbits).
pub open spec fn spec_circular_velocity(central_pos: Position, central_mass: Scalar,
    orbital_pos: Position) -> Velocity {
    let r = orbital_pos.spec_minus(central_pos);
    let r_mag = r.spec_mag();
    let cvm = spec_circular_velocity_magnitude(central_mass, r_mag);
    let pos_unit = r.spec_scale(Scalar::spec_div(Scalar::spec_from_int(1), r_mag));
    let vel_unit = Vector { role: Vel, x: pos_unit.spec_perpendicular_cw().x,
        y: pos_unit.spec_perpendicular_cw().y };
    vel_unit.spec_scale(cvm)
}

/// The separation magnitude and the scaled denominator that
/// `circular_velocity` divides by; the caller keeps both nonzero.
pub open spec fn spec_circular_velocity_defined(central_pos: Position,
    orbital_pos: Position) -> bool {
    let r_mag = orbital_pos.spec_minus(central_pos).spec_mag();
    !r_mag.spec_is_zero() && !Scalar::spec_mul(r_mag, Scalar::spec_from_int(
        1_000_000_000)).spec_is_zero()
}

pub fn circular_velocity(central_pos: Position, central_mass: Scalar,
    orbital_pos: Position) -> (v: Velocity)
    requires
        central_pos.wf(),
        orbital_pos.wf(),
        central_mass.wf(),
        !central_mass.neg,
        spec_circular_velocity_defined(central_pos, orbital_pos),
    ensures
        v == spec_circular_velocity(central_pos, central_mass, orbital_pos),
        v.wf(),
{
    let r = orbital_pos.minus(central_pos);
    let r_mag = r.mag();
    let cvm = circular_velocity_magnitude(central_mass, r_mag);
    let pos_unit = r.scale(Scalar::from_int(1).div(r_mag));
    let vel_unit = Velocity::from(pos_unit.perpendicular_cw());
    vel_unit.scale(cvm)
}

/// Circular velocities of a two-body system about its mutual barycenter: the
/// combined-system circular velocity split between the bodies in inverse
/// proportion to mass, with opposite signs so the pair orbits its barycenter.
pub open spec fn spec_circ_velocity_barycenter(m1: Scalar, pos1: Position, m2: Scalar,
    pos2: Position) -> (Velocity, Velocity) {
    let overall = spec_circular_velocity(pos2, Scalar::spec_add(m1, m2), pos1);
    let sum = Scalar::spec_add(m1, m2);
    (overall.spec_scale(Scalar::spec_div(m2, sum)), overall.spec_scale(Scalar::spec_div(
        m1.spec_neg(), sum)))
}

pub fn circ_velocity_barycenter(m1: Scalar, pos1: Position, m2: Scalar, pos2: Position) -> (v: (
    Velocity, Velocity))
    requires
        m1.wf(),
        m2.wf(),
        !m1.neg,
        !m2.neg,
        pos1.wf(),
        pos2.wf(),
        !Scalar::spec_add(m1, m2).spec_is_zero(),
        spec_circular_velocity_defined(pos2, pos1),
    ensures
        v == spec_circ_velocity_barycenter(m1, pos1, m2, pos2),
        v.0.wf(),
        v.1.wf(),
{
    let mass_sum = m1.add(m2);
    proof {
        crate::scalar::lemma_add_sign(m1, m2);
    }
    let overall_vc = circular_velocity(pos2, mass_sum, pos1);
    let v1 = overall_vc.scale(m2.div(mass_sum));
    let v2 = overall_vc.scale(m1.negate().div(mass_sum));
    (v1, v2)
}

/// Escape velocity of the two-body system: `sqrt(2)` times the barycentric
/// circular velocity, same direction.
pub open spec fn spec_escape_velocity_barycenter(m1: Scalar, pos1: Position, m2: Scalar,
    pos2: Position) -> Velocity {
    spec_circ_velocity_barycenter(m1, pos1, m2, pos2).0.spec_scale(Scalar::spec_sqrt(
        Scalar::spec_from_int(2)))
}

pub fn escape_velocity_barycenter(m1: Scalar, pos1: Position, m2: Scalar, pos2: Position) -> (v:
    Velocity)
    requires
        m1.wf(),
        m2.wf(),
        !m1.neg,
        !m2.neg,
        pos1.wf(),
        pos2.wf(),
        !Scalar::spec_add(m1, m2).spec_is_zero(),
        spec_circular_velocity_defined(pos2, pos1),
    ensures
        v == spec_escape_velocity_barycenter(m1, pos1, m2, pos2),
        v.wf(),
{
    let (circular_velocity, _) = circ_velocity_barycenter(m1, pos1, m2, pos2);
    let two = Scalar::from_int(2);
    proof {
        crate::scalar::lemma_norm_sign(false, 2, 0);
    }
    circular_velocity.scale(two.sqrt())
}

/// One symplectic (semi-implicit) Euler step: the velocity is advanced first,
/// and the position update then uses the *updated* velocity, not the old one.
/// This ordering is what makes the integrator conserve energy over long runs;
/// the contract pins it down exactly.
pub fn symplectic_euler_calc(cur_r: Position, cur_v: Velocity, cur_a: Acceleration,
    dt: Scalar) -> (rv: (Position, Velocity))
    requires
        cur_r.wf(),
        cur_v.wf(),
        cur_a.wf(),
        dt.wf(),
    ensures
        rv.1 == cur_v.spec_update(cur_a, dt),
        rv.0 == cur_r.spec_update(cur_v.spec_update(cur_a, dt), Vector { role: crate::vector::Acc,
            x: Scalar::spec_zero(), y: Scalar::spec_zero() }, dt),
        rv.0.wf(),
        rv.1.wf(),
{
    let next_v = cur_v.update(&cur_a, dt);
    let next_r = cur_r.update_const_v(&next_v, dt);
    (next_r, next_v)
}

/// Kinetic energy in megajoules: `0.5 * m * |v|^2`.
pub open spec fn spec_kinetic_energy(mass: Scalar, v: Velocity) -> Scalar {
    let m = v.spec_mag();
    Scalar::spec_mul(Scalar::spec_mul(Scalar::spec_half(), mass), Scalar::spec_mul(m, m))
}

pub fn kinetic_energy(mass: Scalar, v: Velocity) -> (e: Scalar)
    requires
        mass.wf(),
        v.wf(),
    ensures
        e == spec_kinetic_energy(mass, v),
        e.wf(),
{
    let m = v.mag();
    Scalar::half().mul(mass).mul(m.mul(m))
}

/// Gravitational potential energy between two masses, in megajoules:
/// `-G_km * m1 * m2 / |pos1 - pos2|`, converted from kJ by the 1e-3 factor.
pub open spec fn spec_gravitational_potential_energy(m1: Scalar, m2: Scalar, pos1: Position,
    pos2: Position) -> Scalar {
    let r = pos1.spec_minus(pos2).spec_mag();
    let kj = Scalar::spec_div(Scalar::spec_mul(Scalar::spec_mul(spec_g_km().spec_neg(), m1), m2),
        r);
    Scalar::spec_mul(kj, Scalar::spec_div(Scalar::spec_from_int(1), Scalar::spec_from_int(1000)))
}

pub fn gravitational_potential_energy(m1: Scalar, m2: Scalar, pos1: Position, pos2: Position) -> (
    e: Scalar)
    requires
        m1.wf(),
        m2.wf(),
        pos1.wf(),
        pos2.wf(),
        !pos1.spec_minus(pos2).spec_mag().spec_is_zero(),
    ensures
        e == spec_gravitational_potential_energy(m1, m2, pos1, pos2),
        e.wf(),
{
    let r = pos1.minus(pos2).mag();
    let kj = g_km().negate().mul(m1).mul(m2).div(r);
    kj.mul(Scalar::from_ratio(1, 1000))
}

/// Combined mass of a body list, summed left to right.
pub open spec fn spec_mass_sum(s: Seq<Body>) -> Scalar
    decreases s.len(),
{
    if s.len() == 0 {
        Scalar::spec_zero()
    } else {
        Scalar::spec_add(spec_mass_sum(s.drop_last()), s.last().mass)
    }
}

/// Mass-weighted sum of local positions, summed left to right.
pub open spec fn spec_weighted_pos_sum(s: Seq<Body>) -> Position
    decreases s.len(),
{
    if s.len() == 0 {
        Position::spec_zero_vec()
    } else {
        spec_weighted_pos_sum(s.drop_last()).spec_add(s.last().pos.spec_scale(s.last().mass))
    }
}

/// Mass-weighted sum of absolute positions, summed left to right.
pub open spec fn spec_weighted_abs_pos_sum(s: Seq<Body>) -> Position
    decreases s.len(),
{
    if s.len() == 0 {
        Position::spec_zero_vec()
    } else {
        spec_weighted_abs_pos_sum(s.drop_last()).spec_add(s.last().absolute_pos.spec_scale(
            s.last().mass))
    }
}

/// Mass-weighted sum of absolute velocities, summed left to right.
pub open spec fn spec_weighted_abs_vel_sum(s: Seq<Body>) -> Velocity
    decreases s.len(),
{
    if s.len() == 0 {
        Velocity::spec_zero_vec()
    } else {
        spec_weighted_abs_vel_sum(s.drop_last()).spec_add(s.last().absolute_vel.spec_scale(
            s.last().mass))
    }
}

/// Barycenter over local positions: `sum(m_i * p_i) / sum(m_i)`.
pub open spec fn spec_barycenter(s: Seq<Body>) -> Position {
    spec_weighted_pos_sum(s).spec_divide(spec_mass_sum(s))
}

/// Barycenter over absolute positions.
pub open spec fn spec_barycenter_abs(s: Seq<Body>) -> Position {
    spec_weighted_abs_pos_sum(s).spec_divide(spec_mass_sum(s))
}

/// Mass-weighted mean of absolute velocities.
pub open spec fn spec_barycentric_velocity(s: Seq<Body>) -> Velocity {
    spec_weighted_abs_vel_sum(s).spec_divide(spec_mass_sum(s))
}

/// The barycenter of a body set over local positions; the point a sibling
/// pair both orbit. The combined mass must be nonzero.
#[verifier::loop_isolation(false)]
pub fn barycenter(bodies: &Vec<Body>) -> (p: Position)
    requires
        forall|i: int| 0 <= i < bodies@.len() ==> (#[trigger] bodies@[i]).wf(),
        !spec_mass_sum(bodies@).spec_is_zero(),
    ensures
        p == spec_barycenter(bodies@),
        p.wf(),
{
    let mut mass_sum = Scalar::zero();
    let mut weighted = Position::zero();
    let mut i: usize = 0;
    while i < bodies.len()
        invariant
            i <= bodies@.len(),
            mass_sum == spec_mass_sum(bodies@.take(i as int)),
            mass_sum.wf(),
            weighted == spec_weighted_pos_sum(bodies@.take(i as int)),
            weighted.wf(),
        decreases bodies@.len() - i,
    {
        proof {
            assert(bodies@.take(i as int + 1).drop_last() =~= bodies@.take(i as int));
            assert(bodies@.take(i as int + 1).last() == bodies@[i as int]);
        }
        mass_sum = mass_sum.add(bodies[i].mass);
        weighted = weighted.add(bodies[i].pos.scale(bodies[i].mass));
        i = i + 1;
    }
    proof {
        assert(bodies@.take(bodies@.len() as int) =~= bodies@);
    }
    weighted.divide(mass_sum)
}

/// The barycenter of a body set over absolute positions.
#[verifier::loop_isolation(false)]
pub fn barycenter_abs(bodies: &Vec<Body>) -> (p: Position)
    requires
        forall|i: int| 0 <= i < bodies@.len() ==> (#[trigger] bodies@[i]).wf(),
        !spec_mass_sum(bodies@).spec_is_zero(),
    ensures
        p == spec_barycenter_abs(bodies@),
        p.wf(),
{
    let mut mass_sum = Scalar::zero();
    let mut weighted = Position::zero();
    let mut i: usize = 0;
    while i < bodies.len()
        invariant
            i <= bodies@.len(),
            mass_sum == spec_mass_sum(bodies@.take(i as int)),
            mass_sum.wf(),
            weighted == spec_weighted_abs_pos_sum(bodies@.take(i as int)),
            weighted.wf(),
        decreases bodies@.len() - i,
    {
        proof {
            assert(bodies@.take(i as int + 1).drop_last() =~= bodies@.take(i as int));
            assert(bodies@.take(i as int + 1).last() == bodies@[i as int]);
        }
        mass_sum = mass_sum.add(bodies[i].mass);
        weighted = weighted.add(bodies[i].absolute_pos.scale(bodies[i].mass));
        i = i + 1;
    }
    proof {
        assert(bodies@.take(bodies@.len() as int) =~= bodies@);
    }
    weighted.divide(mass_sum)
}

/// The mass-weighted mean of a body set's absolute velocities.
#[verifier::loop_isolation(false)]
pub fn barycentric_velocity(bodies: &Vec<Body>) -> (v: Velocity)
    requires
        forall|i: int| 0 <= i < bodies@.len() ==> (#[trigger] bodies@[i]).wf(),
        !spec_mass_sum(bodies@).spec_is_zero(),
    ensures
        v == spec_barycentric_velocity(bodies@),
        v.wf(),
{
    let mut mass_sum = Scalar::zero();
    let mut weighted = Velocity::zero();
    let mut i: usize = 0;
    while i < bodies.len()
        invariant
            i <= bodies@.len(),
            mass_sum == spec_mass_sum(bodies@.take(i as int)),
            mass_sum.wf(),
            weighted == spec_weighted_abs_vel_sum(bodies@.take(i as int)),
            weighted.wf(),
        decreases bodies@.len() - i,
    {
        proof {
            assert(bodies@.take(i as int + 1).drop_last() =~= bodies@.take(i as int));
            assert(bodies@.take(i as int + 1).last() == bodies@[i as int]);
        }
        mass_sum = mass_sum.add(bodies[i].mass);
        weighted = weighted.add(bodies[i].absolute_vel.scale(bodies[i].mass));
        i = i + 1;
    }
    proof {
        assert(bodies@.take(bodies@.len() as int) =~= bodies@);
    }
    weighted.divide(mass_sum)
}

/// The barycenter sums read only seed fields, so two elementwise seed-equal
/// body lists have equal sums.
pub proof fn lemma_sums_seed_equal(s1: Seq<Body>, s2: Seq<Body>)
    requires
        s1.len() == s2.len(),
        forall|i: int| 0 <= i < s1.len() ==> (#[trigger] s1[i]).seed() == s2[i].seed(),
    ensures
        spec_mass_sum(s1) == spec_mass_sum(s2),
        spec_weighted_abs_pos_sum(s1) == spec_weighted_abs_pos_sum(s2),
        spec_weighted_abs_vel_sum(s1) == spec_weighted_abs_vel_sum(s2),
    decreases s1.len(),
{
    if s1.len() > 0 {
        lemma_sums_seed_equal(s1.drop_last(), s2.drop_last());
        assert(s1.last().seed() == s2.last().seed());
    }
}

/// Barycentric circular velocities of two bodies from their absolute
/// positions, split in inverse proportion to mass.
pub open spec fn spec_circ_velocity_bodies(body1: Body, body2: Body) -> (Velocity, Velocity) {
    let r = body2.absolute_pos.spec_minus(body1.absolute_pos);
    let mass_sum = Scalar::spec_add(body1.mass, body2.mass);
    let cvm = spec_circular_velocity_magnitude(mass_sum, r.spec_mag());
    let r_unit = r.spec_divide(r.spec_mag());
    let v_unit = r_unit.spec_perpendicular_cw();
    let scaled = v_unit.spec_scale(cvm);
    let vc = Vector { role: Vel, x: scaled.x, y: scaled.y };
    (vc.spec_scale(Scalar::spec_div(body2.mass.spec_neg(), mass_sum)), vc.spec_scale(
        Scalar::spec_div(body1.mass, mass_sum)))
}

pub fn circ_velocity_bodies(body1: &Body, body2: &Body) -> (v: (Velocity, Velocity))
    requires
        body1.wf(),
        body2.wf(),
        !body2.absolute_pos.spec_minus(body1.absolute_pos).spec_mag().spec_is_zero(),
        !Scalar::spec_mul(body2.absolute_pos.spec_minus(body1.absolute_pos).spec_mag(),
            Scalar::spec_from_int(1_000_000_000)).spec_is_zero(),
        !Scalar::spec_add(body1.mass, body2.mass).spec_is_zero(),
    ensures
        v == spec_circ_velocity_bodies(*body1, *body2),
        v.0.wf(),
        v.1.wf(),
{
    let r = body2.absolute_pos.minus(body1.absolute_pos);
    let mass_sum = body1.mass.add(body2.mass);
    proof {
        crate::scalar::lemma_add_sign(body1.mass, body2.mass);
    }
    let circ_v_mag = circular_velocity_magnitude(mass_sum, r.mag());
    let r_unit = r.divide(r.mag());
    let v_unit = r_unit.perpendicular_cw();
    let vc = Velocity::from(v_unit.scale(circ_v_mag));
    let v1 = vc.scale(body2.mass.negate().div(mass_sum));
    let v2 = vc.scale(body1.mass.div(mass_sum));
    (v1, v2)
}

} // verus!
