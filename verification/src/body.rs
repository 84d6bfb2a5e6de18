//! The simulation entity (`Body`) and the named initial-condition bundles
//! (`Preset`).
//!
//! A body's `pos` and `v` are local to its parent's frame once a hierarchy is
//! built; `absolute_pos` and `absolute_vel` are frame-independent. The
//! trajectory is an append-only history of snapshots (one per tick once the
//! simulation has started); snapshots carry no trajectory of their own.

use vstd::prelude::*;

verus! {

use vstd::string::StringExecFns;
use crate::scalar::Scalar;
use crate::vector::Acceleration;
use crate::vector::Position;
use crate::vector::Velocity;
use crate::physics::circular_velocity;
use crate::physics::circ_velocity_barycenter;
use crate::physics::spec_circular_velocity_defined;

/// Radius of the Earth in kilometers.
pub const R_EARTH_KM: i128 = 6378;

/// Radius of the Moon in kilometers.
pub const R_MOON_KM: i128 = 1740;

/// Mean Sun-Earth distance in kilometers.
pub const SUN_EARTH_R_KM: i128 = 149_597_870;

/// The core simulation entity.
#[derive(Debug)]
pub struct Body {
    /// Display name.
    pub name: String,
    /// Position local to the parent frame (km).
    pub pos: Position,
    /// Velocity local to the parent frame (km/s).
    pub v: Velocity,
    /// Mass (kg); never negative.
    pub mass: Scalar,
    /// Radius (km); never negative.
    pub radius: Scalar,
    /// Past snapshots of this body, one per tick once started.
    pub trajectory: Vec<Body>,
    /// The acceleration applied on the last tick (diagnostics).
    pub computed_a: Acceleration,
    /// Frame-independent position (km).
    pub absolute_pos: Position,
    /// Frame-independent velocity (km/s).
    pub absolute_vel: Velocity,
    /// Excluded from force computation on itself.
    pub is_fixed: bool,
    /// Synthetic barycenter node, not a physical leaf.
    pub is_barycenter: bool,
    /// Pre-start editing aid: velocity derived from the circular-orbit formula.
    pub lock_to_circular_velocity: bool,
    /// Pre-start editing aid: velocity derived from the escape-velocity formula.
    pub lock_to_escape_velocity: bool,
    /// Index of the reference body used by the velocity locks.
    pub selected_vel_lock: usize,
    /// Display color.
    pub color: (u8, u8, u8),
    /// Display hint: whether the body's panel starts expanded.
    pub default_expanded: bool,
}

/// Everything of a body except its trajectory, as one value; two bodies with
/// equal seeds differ at most in their histories.
pub struct Seed {
    pub name: Seq<char>,
    pub pos: Position,
    pub v: Velocity,
    pub mass: Scalar,
    pub radius: Scalar,
    pub computed_a: Acceleration,
    pub absolute_pos: Position,
    pub absolute_vel: Velocity,
    pub is_fixed: bool,
    pub is_barycenter: bool,
    pub lock_to_circular_velocity: bool,
    pub lock_to_escape_velocity: bool,
    pub selected_vel_lock: usize,
    pub color: (u8, u8, u8),
    pub default_expanded: bool,
}

impl Body {
    /// The trajectory-free projection of this body.
    pub open spec fn seed(self) -> Seed {
        Seed {
            name: self.name@,
            pos: self.pos,
            v: self.v,
            mass: self.mass,
            radius: self.radius,
            computed_a: self.computed_a,
            absolute_pos: self.absolute_pos,
            absolute_vel: self.absolute_vel,
            is_fixed: self.is_fixed,
            is_barycenter: self.is_barycenter,
            lock_to_circular_velocity: self.lock_to_circular_velocity,
            lock_to_escape_velocity: self.lock_to_escape_velocity,
            selected_vel_lock: self.selected_vel_lock,
            color: self.color,
            default_expanded: self.default_expanded,
        }
    }

    /// Well-formedness of a trajectory snapshot: sound scalars, nonnegative
    /// mass and radius, and no nested history.
    pub open spec fn snap_wf(self) -> bool {
        &&& self.pos.wf() && self.v.wf() && self.mass.wf() && self.radius.wf()
        &&& self.computed_a.wf() && self.absolute_pos.wf() && self.absolute_vel.wf()
        &&& !self.mass.neg && !self.radius.neg
        &&& self.trajectory.len() == 0
    }

    /// Well-formedness: sound scalars, nonnegative mass and radius, and every
    /// trajectory entry a well-formed snapshot.
    pub open spec fn wf(self) -> bool {
        &&& self.pos.wf() && self.v.wf() && self.mass.wf() && self.radius.wf()
        &&& self.computed_a.wf() && self.absolute_pos.wf() && self.absolute_vel.wf()
        &&& !self.mass.neg && !self.radius.neg
        &&& forall|i: int| 0 <= i < self.trajectory.len() ==> (
        #[trigger] self.trajectory[i]).snap_wf()
    }

    /// A copy of the current state without the history, used for trajectory
    /// snapshots and for the hierarchy builder's working set.
    pub fn copy(&self) -> (b: Body)
        ensures
            b.seed() == self.seed(),
            b.trajectory.len() == 0,
            self.wf() ==> b.snap_wf(),
            self.wf() ==> b.wf(),
    {
        Body {
            name: self.name.clone(),
            pos: self.pos,
            v: self.v,
            mass: self.mass,
            radius: self.radius,
            trajectory: Vec::new(),
            computed_a: self.computed_a,
            absolute_pos: self.absolute_pos,
            absolute_vel: self.absolute_vel,
            is_fixed: self.is_fixed,
            is_barycenter: self.is_barycenter,
            lock_to_circular_velocity: self.lock_to_circular_velocity,
            lock_to_escape_velocity: self.lock_to_escape_velocity,
            selected_vel_lock: self.selected_vel_lock,
            color: self.color,
            default_expanded: self.default_expanded,
        }
    }

    /// A deep copy, history included.
    pub fn full_copy(&self) -> (b: Body)
        ensures
            b.seed() == self.seed(),
            b.trajectory@.len() == self.trajectory@.len(),
            forall|i: int| 0 <= i < self.trajectory@.len() ==> (#[trigger] b.trajectory@[i]).seed()
                == self.trajectory@[i].seed() && b.trajectory@[i].trajectory.len() == 0,
            self.wf() ==> b.wf(),
    {
        let mut trajectory: Vec<Body> = Vec::new();
        let mut i: usize = 0;
        while i < self.trajectory.len()
            invariant
                i <= self.trajectory@.len(),
                trajectory@.len() == i,
                forall|j: int| 0 <= j < i ==> (#[trigger] trajectory@[j]).seed()
                    == self.trajectory@[j].seed() && trajectory@[j].trajectory.len() == 0,
                self.wf() ==> forall|j: int| 0 <= j < i ==> (
                #[trigger] trajectory@[j]).snap_wf(),
            decreases self.trajectory@.len() - i,
        {
            trajectory.push(self.trajectory[i].copy());
            i = i + 1;
        }
        let mut b = self.copy();
        b.trajectory = trajectory;
        b
    }

    /// Advance this body to its next state: store the new local state, derive
    /// the absolute state from the parent's already-updated absolute frame,
    /// and append a snapshot of the new state to the trajectory.
    pub fn update(&mut self, new_pos: Position, new_vel: Velocity, new_acc: Acceleration,
        parent_abs_pos: Position, parent_abs_vel: Velocity)
        requires
            old(self).wf(),
            new_pos.wf(),
            new_vel.wf(),
            new_acc.wf(),
            parent_abs_pos.wf(),
            parent_abs_vel.wf(),
        ensures
            final(self).pos == new_pos,
            final(self).absolute_pos == parent_abs_pos.spec_add(new_pos),
            final(self).v == new_vel,
            final(self).absolute_vel == parent_abs_vel.spec_add(new_vel),
            final(self).computed_a == new_acc,
            final(self).name == old(self).name,
            final(self).mass == old(self).mass,
            final(self).radius == old(self).radius,
            final(self).is_fixed == old(self).is_fixed,
            final(self).is_barycenter == old(self).is_barycenter,
            final(self).lock_to_circular_velocity == old(self).lock_to_circular_velocity,
            final(self).lock_to_escape_velocity == old(self).lock_to_escape_velocity,
            final(self).selected_vel_lock == old(self).selected_vel_lock,
            final(self).color == old(self).color,
            final(self).default_expanded == old(self).default_expanded,
            final(self).trajectory@.len() == old(self).trajectory@.len() + 1,
            forall|i: int| 0 <= i < old(self).trajectory@.len() ==> final(self).trajectory@[i]
                == old(self).trajectory@[i],
            final(self).trajectory@.last().seed() == final(self).seed(),
            final(self).trajectory@.last().trajectory.len() == 0,
            final(self).wf(),
    {
        self.pos = new_pos;
        self.absolute_pos = parent_abs_pos.add(new_pos);
        self.v = new_vel;
        self.absolute_vel = parent_abs_vel.add(new_vel);
        self.computed_a = new_acc;
        let snap = self.copy();
        self.trajectory.push(snap);
    }

    /// A body with every numeric field zero and the default display settings.
    pub fn blank() -> (b: Body)
        ensures
            b.wf(),
            b.trajectory.len() == 0,
            b.pos == Position::spec_zero_vec(),
            b.v == Velocity::spec_zero_vec(),
            b.mass == Scalar::spec_zero(),
            b.radius == Scalar::spec_zero(),
            b.computed_a == Acceleration::spec_zero_vec(),
            b.absolute_pos == Position::spec_zero_vec(),
            b.absolute_vel == Velocity::spec_zero_vec(),
            !b.is_fixed && !b.is_barycenter,
            !b.lock_to_circular_velocity && !b.lock_to_escape_velocity,
            b.selected_vel_lock == 0,
            b.name@.len() == 0,
            !b.default_expanded,
            b.color == (0u8, 255u8, 0u8),
    {
        Body {
            name: String::new(),
            pos: Position::zero(),
            v: Velocity::zero(),
            mass: Scalar::zero(),
            radius: Scalar::zero(),
            trajectory: Vec::new(),
            computed_a: Acceleration::zero(),
            absolute_pos: Position::zero(),
            absolute_vel: Velocity::zero(),
            is_fixed: false,
            is_barycenter: false,
            lock_to_circular_velocity: false,
            lock_to_escape_velocity: false,
            selected_vel_lock: 0,
            color: (0, 255, 0),
            default_expanded: false,
        }
    }

    /// Starting conditions for a low Earth orbit, modeled after the ISS:
    /// 400 km altitude, position (3000, sqrt(6778^2 - 3000^2)) km, velocity
    /// from the circular-orbit formula around Earth.
    pub fn outer_low() -> (b: Body)
        ensures
            b.wf(),
            b.trajectory.len() == 0,
            !b.is_barycenter,
    {
        let earth = Body::earth();
        let earth_mass = earth.mass;
        let earth_pos = earth.absolute_pos;

        // r = 400 + R_EARTH_KM; y = sqrt(r^2 - x^2) with x = 3000
        let y = Scalar::from_int((400 + R_EARTH_KM) * (400 + R_EARTH_KM) - 3000 * 3000).sqrt();
        proof {
            crate::scalar::lemma_norm_sign(false, ((400 + R_EARTH_KM) * (400 + R_EARTH_KM)
                - 3000 * 3000) as nat, 0);
            crate::scalar::lemma_sqrt_sign(Scalar::spec_from_int((400 + R_EARTH_KM) * (400
                + R_EARTH_KM) - 3000 * 3000));
        }
        let position = Position::new(Scalar::from_int(3000), y);

        let mut b = Body::blank();
        b.name = String::from_str("Orbiting Object");
        b.mass = Scalar::from_int(400_000);
        b.absolute_pos = position;
        b.v = checked_circular_velocity(earth_pos, earth_mass, position);
        b.absolute_vel = b.v;
        b.default_expanded = true;
        b.color = (255, 0, 0);
        b
    }

    pub fn earth() -> (b: Body)
        ensures
            b.wf(),
            b.trajectory.len() == 0,
            !b.is_barycenter,
            !b.is_fixed,
            b.mass == Scalar::spec_from_int(5_970_000_000_000_000_000_000_000),
            b.radius == Scalar::spec_from_int(R_EARTH_KM as int),
            b.absolute_pos == Position::spec_zero_vec(),
            b.absolute_vel == Velocity::spec_zero_vec(),
            !b.lock_to_circular_velocity && !b.lock_to_escape_velocity,
            b.selected_vel_lock == 0,
    {
        let mut b = Body::blank();
        b.name = String::from_str("Earth");
        b.mass = Scalar::from_int(5_970_000_000_000_000_000_000_000);
        b.radius = Scalar::from_int(R_EARTH_KM);
        b
    }

    pub fn moon() -> (b: Body)
        ensures
            b.wf(),
            b.trajectory.len() == 0,
            !b.is_barycenter,
            b.mass == Scalar::spec_from_int(73_400_000_000_000_000_000_000),
    {
        let earth = Body::earth();
        let earth_mass = earth.mass;
        let earth_pos = earth.absolute_pos;
        let position = Position::new(Scalar::zero(), Scalar::from_int(384_400 + R_EARTH_KM));
        let moon_mass = Scalar::from_int(73_400_000_000_000_000_000_000);

        let mut b = Body::blank();
        b.name = String::from_str("Moon");
        b.mass = moon_mass;
        b.radius = Scalar::from_int(R_MOON_KM);
        b.absolute_pos = position;
        b.v = checked_circ_velocity_barycenter(moon_mass, position, earth_mass, earth_pos);
        b.absolute_vel = b.v;
        b.default_expanded = true;
        b.color = (160, 160, 160);
        b
    }

    pub fn sun() -> (b: Body)
        ensures
            b.wf(),
            b.trajectory.len() == 0,
            !b.is_barycenter,
            b.mass == Scalar::spec_from_int(1_989_000_000_000_000_000_000_000_000_000),
            b.absolute_pos == Position::spec_zero_vec(),
    {
        let mut b = Body::blank();
        b.name = String::from_str("Sun");
        b.absolute_pos = Position::zero();
        b.mass = Scalar::from_int(1_989_000_000_000_000_000_000_000_000_000);
        b.radius = Scalar::from_int(696_300);
        b.color = (255, 255, 0);
        b
    }
}

/// The circular-orbit velocity when its denominators are nonzero, else zero;
/// seed construction never hits the degenerate case.
fn checked_circular_velocity(central_pos: Position, central_mass: Scalar, orbital_pos: Position)
    -> (v: Velocity)
    requires
        central_pos.wf(),
        central_mass.wf(),
        !central_mass.neg,
        orbital_pos.wf(),
    ensures
        spec_circular_velocity_defined(central_pos, orbital_pos) ==> v
            == crate::physics::spec_circular_velocity(central_pos, central_mass, orbital_pos),
        !spec_circular_velocity_defined(central_pos, orbital_pos) ==> v
            == Velocity::spec_zero_vec(),
        v.wf(),
{
    let r_mag = orbital_pos.minus(central_pos).mag();
    let scaled = r_mag.mul(Scalar::from_int(1_000_000_000));
    if !r_mag.is_zero() && !scaled.is_zero() {
        circular_velocity(central_pos, central_mass, orbital_pos)
    } else {
        Velocity::zero()
    }
}

/// The barycentric circular velocity of the first body when defined, else
/// zero; seed construction never hits the degenerate case.
fn checked_circ_velocity_barycenter(m1: Scalar, pos1: Position, m2: Scalar, pos2: Position) -> (v:
    Velocity)
    requires
        m1.wf(),
        m2.wf(),
        !m1.neg,
        !m2.neg,
        pos1.wf(),
        pos2.wf(),
    ensures
        (!Scalar::spec_add(m1, m2).spec_is_zero() && spec_circular_velocity_defined(pos2, pos1))
            ==> v == crate::physics::spec_circ_velocity_barycenter(m1, pos1, m2, pos2).0,
        !(!Scalar::spec_add(m1, m2).spec_is_zero() && spec_circular_velocity_defined(pos2, pos1))
            ==> v == Velocity::spec_zero_vec(),
        v.wf(),
{
    let sum = m1.add(m2);
    let r_mag = pos1.minus(pos2).mag();
    let scaled = r_mag.mul(Scalar::from_int(1_000_000_000));
    if !sum.is_zero() && !r_mag.is_zero() && !scaled.is_zero() {
        let (v1, _) = circ_velocity_barycenter(m1, pos1, m2, pos2);
        v1
    } else {
        Velocity::zero()
    }
}

/// The barycentric circular velocity of the first of two bodies computed from
/// absolute positions when defined, else zero; seed construction never hits
/// the degenerate case.
fn checked_circ_velocity_bodies(body1: &Body, body2: &Body) -> (v: Velocity)
    requires
        body1.wf(),
        body2.wf(),
    ensures
        v.wf(),
{
    let r_mag = body2.absolute_pos.minus(body1.absolute_pos).mag();
    let scaled = r_mag.mul(Scalar::from_int(1_000_000_000));
    let sum = body1.mass.add(body2.mass);
    if !r_mag.is_zero() && !scaled.is_zero() && !sum.is_zero() {
        let (v1, _) = crate::physics::circ_velocity_bodies(body1, body2);
        v1
    } else {
        Velocity::zero()
    }
}

/// A named initial-condition bundle: seed bodies plus simulation parameters.
#[derive(Debug)]
pub struct Preset {
    pub bodies: Vec<Body>,
    pub name: String,
    /// Display scale; not part of the core semantics but round-tripped.
    pub distance_per_px: i32,
    /// Seconds per integration step.
    pub dt: Scalar,
    /// Steps to advance per user action.
    pub ticks_per_press: i32,
    /// Seconds between recorded trajectory samples (presentation concern).
    pub draw_frequency: u32,
}

impl Preset {
    /// Every seed body is well-formed, there is at least one, and the step
    /// size is a nonnegative well-formed scalar.
    pub open spec fn wf(self) -> bool {
        &&& self.bodies@.len() > 0
        &&& forall|i: int| 0 <= i < self.bodies@.len() ==> (#[trigger] self.bodies@[i]).wf()
        &&& forall|i: int| 0 <= i < self.bodies@.len() ==> !(
        #[trigger] self.bodies@[i]).is_barycenter
        &&& self.dt.wf() && !self.dt.neg
        &&& self.ticks_per_press >= 0
    }

    /// The shared parameter defaults: dt of one second, one thousand ticks per
    /// press, one trajectory sample every hundred seconds.
    fn base() -> (p: Preset)
        ensures
            p.bodies@.len() == 0,
            p.dt == Scalar::spec_from_int(1),
            p.dt.wf() && !p.dt.neg,
            p.ticks_per_press == 1000,
            p.draw_frequency == 100,
    {
        proof {
            crate::scalar::lemma_norm_sign(false, 1, 0);
        }
        Preset {
            bodies: Vec::new(),
            name: String::new(),
            distance_per_px: 0,
            dt: Scalar::from_int(1),
            ticks_per_press: 1000,
            draw_frequency: 100,
        }
    }

    /// The preset catalog, in menu order.
    pub fn defaults() -> (v: Vec<Preset>)
        ensures
            v@.len() == 7,
            forall|i: int| 0 <= i < v@.len() ==> (#[trigger] v@[i]).wf(),
            v@[0].bodies@.len() == 2 && v@[0].dt == Scalar::spec_from_int(1)
                && v@[0].ticks_per_press == 1000 && v@[0].distance_per_px == 150,
            v@[0].bodies@[0].is_fixed && v@[0].bodies@[0].mass == Scalar::spec_from_int(
                5_970_000_000_000_000_000_000_000),
            v@[1].bodies@.len() == 3 && v@[1].dt == Scalar::spec_from_int(50),
            v@[2].bodies@.len() == 2 && v@[2].dt == Scalar::spec_from_int(1)
                && v@[2].ticks_per_press == 100_000 && v@[2].distance_per_px == 4000,
            v@[3].bodies@.len() == 3 && v@[3].dt == Scalar::spec_from_int(1),
            v@[4].bodies@.len() == 2 && v@[4].dt == Scalar::spec_from_int(10)
                && v@[4].ticks_per_press == 10_000,
            v@[5].bodies@.len() == 2 && v@[5].dt == Scalar::spec_from_int(10),
            v@[6].bodies@.len() == 9 && v@[6].dt == Scalar::spec_from_int(50),
    {
        let mut fixed_earth = Body::earth();
        fixed_earth.is_fixed = true;

        let mut first = Preset::base();
        first.bodies = vec![fixed_earth, Body::outer_low()];
        first.name = String::from_str("Small object orbiting Earth");
        first.distance_per_px = 150;

        vec![
            first,
            Self::sun_earth_moon(),
            Self::earth_moon(),
            Self::three_body(),
            Self::equal_binary(),
            Self::unequal_binary(),
            Self::hierarchy_test(),
        ]
    }

    /// Moon orbiting Earth, both locked to the barycentric circular velocity.
    pub fn earth_moon() -> (p: Preset)
        ensures
            p.wf(),
            p.bodies@.len() == 2,
            p.dt == Scalar::spec_from_int(1),
            p.ticks_per_press == 100_000,
            p.distance_per_px == 4000,
            p.draw_frequency == 100,
    {
        let mut barycenter_earth = Body::earth();
        barycenter_earth.lock_to_circular_velocity = true;
        barycenter_earth.selected_vel_lock = 1;

        let mut moon_orbiting_earth = Body::moon();
        moon_orbiting_earth.lock_to_circular_velocity = true;
        moon_orbiting_earth.selected_vel_lock = 0;

        let mut p = Preset::base();
        p.bodies = vec![barycenter_earth, moon_orbiting_earth];
        p.name = String::from_str("Moon orbiting Earth");
        p.distance_per_px = 4000;
        p.ticks_per_press = 100_000;
        p
    }

    /// Three bodies of equal mass; two locked to mutual circular velocity,
    /// the third on a fixed manual velocity.
    pub fn three_body() -> (p: Preset)
        ensures
            p.wf(),
            p.bodies@.len() == 3,
            p.dt == Scalar::spec_from_int(1),
            p.ticks_per_press == 1000,
            p.distance_per_px == 300,
            p.draw_frequency == 100,
    {
        let mut b1 = Body::blank();
        b1.name = String::from_str("1");
        b1.radius = Scalar::from_int(1000);
        b1.mass = Scalar::from_int(1_000_000_000_000_000_000_000);
        b1.absolute_pos = Position::new(Scalar::from_int(-5000), Scalar::from_int(-5000));
        b1.lock_to_circular_velocity = true;
        b1.selected_vel_lock = 1;
        b1.color = (0, 255, 0);

        let mut b2 = b1.copy();
        b2.name = String::from_str("2");
        b2.absolute_pos = Position::new(Scalar::from_int(0), Scalar::from_int(5000));
        b2.lock_to_circular_velocity = true;
        b2.selected_vel_lock = 0;
        b2.color = (255, 0, 0);

        let mut b3 = b1.copy();
        b3.name = String::from_str("3");
        b3.absolute_pos = Position::new(Scalar::from_int(7000), Scalar::from_int(-5000));
        b3.v = Velocity::new(Scalar::from_ratio(-2, 10), Scalar::from_ratio(8, 100));
        b3.absolute_vel = b3.v;
        b3.lock_to_circular_velocity = false;
        b3.color = (0, 70, 180);
        proof {
            crate::scalar::lemma_div_sign(Scalar::spec_from_int(8), Scalar::spec_from_int(100));
            crate::scalar::lemma_norm_sign(false, 8, 0);
            crate::scalar::lemma_norm_sign(false, 100, 0);
        }

        let mut p = Preset::base();
        p.name = String::from_str("Three body");
        p.distance_per_px = 300;
        p.bodies = vec![b1, b2, b3];
        p
    }

    /// Sun, Earth and Moon, each inner body locked to the circular velocity
    /// around its parent; a 50 second step and day-scale trajectory sampling.
    pub fn sun_earth_moon() -> (p: Preset)
        ensures
            p.wf(),
            p.bodies@.len() == 3,
            p.dt == Scalar::spec_from_int(50),
            p.ticks_per_press == 100_000,
            p.distance_per_px == 1_400_000,
            p.draw_frequency == 24 * 60 * 60,
    {
        let sun = Body::sun();

        let mut earth = Body::earth();
        earth.absolute_pos = Position::new(Scalar::from_int(0), Scalar::from_int(SUN_EARTH_R_KM));
        earth.lock_to_circular_velocity = true;
        earth.selected_vel_lock = 2;

        let default_moon = Body::moon();
        let mut moon = Body::moon();
        moon.absolute_pos = earth.absolute_pos.add(default_moon.absolute_pos);
        moon.lock_to_circular_velocity = true;
        moon.selected_vel_lock = 1;

        proof {
            crate::scalar::lemma_norm_sign(false, 50, 0);
        }
        Preset {
            name: String::from_str("Sun + Earth + Moon"),
            bodies: vec![sun, earth, moon],
            distance_per_px: 1_400_000,
            dt: Scalar::from_int(50),
            ticks_per_press: 100_000,
            draw_frequency: 24 * 60 * 60,
        }
    }

    /// The Sun-Earth-Moon system plus a far-away cluster of two more
    /// Earth-Moon pairs, a third moon and a tiny test particle, to exercise
    /// multi-level grouping.
    pub fn hierarchy_test() -> (p: Preset)
        ensures
            p.wf(),
            p.bodies@.len() == 9,
            p.dt == Scalar::spec_from_int(50),
            p.ticks_per_press == 100_000,
            p.distance_per_px == 1_400_000,
            p.draw_frequency == 24 * 60 * 60,
    {
        let base = Self::sun_earth_moon();

        let cluster_y: i128 = -599_597_870;
        let moon_offset = Body::moon().absolute_pos;

        let mut earth_2 = Body::earth();
        earth_2.name = String::from_str("Earth 2");
        earth_2.absolute_pos = Position::new(Scalar::from_int(0), Scalar::from_int(cluster_y
            - 5_978_700));

        let mut moon_2 = Body::moon();
        moon_2.name = String::from_str("Moon 2");
        moon_2.absolute_pos = earth_2.absolute_pos.add(moon_offset);

        let mut earth_3 = Body::earth();
        earth_3.name = String::from_str("Earth 3");
        earth_3.absolute_pos = Position::new(Scalar::from_int(0), Scalar::from_int(cluster_y
            + 9_597_870));

        let mut moon_3 = Body::moon();
        moon_3.name = String::from_str("Moon 3");
        moon_3.absolute_pos = earth_3.absolute_pos.add(moon_offset);

        let mut third = Body::moon();
        third.name = String::from_str("Third body");
        third.absolute_pos = earth_3.absolute_pos.minus(moon_offset);

        let mut small = Body::blank();
        small.name = String::from_str("Small test particle");
        small.mass = Scalar::from_int(10);
        small.absolute_pos = third.absolute_pos.add(Position::new(Scalar::from_int(100),
            Scalar::from_int(100)));

        let mut p = base;
        p.bodies.push(earth_2);
        p.bodies.push(moon_2);
        p.bodies.push(earth_3);
        p.bodies.push(moon_3);
        p.bodies.push(third);
        p.bodies.push(small);
        p.name = String::from_str("hierarchy_test");
        p
    }

    /// A binary system with equal masses and circular velocities; both bodies
    /// move on the same circle.
    pub fn equal_binary() -> (p: Preset)
        ensures
            p.wf(),
            p.bodies@.len() == 2,
            p.dt == Scalar::spec_from_int(10),
            p.ticks_per_press == 10_000,
            p.distance_per_px == 1000,
            p.draw_frequency == 24 * 60 * 60,
    {
        let mut body1 = Body::blank();
        body1.name = String::from_str("1");
        body1.mass = Scalar::from_int(12_300_000_000_000_000_000_000);
        body1.radius = Scalar::from_int(8000);
        body1.absolute_pos = Position::new(Scalar::from_int(50_000), Scalar::from_int(0));
        body1.lock_to_circular_velocity = true;
        body1.selected_vel_lock = 1;
        body1.default_expanded = true;

        let mut body2 = body1.copy();
        body2.name = String::from_str("2");
        body2.absolute_pos = Position::new(Scalar::from_int(-50_000), Scalar::from_int(0));
        body2.selected_vel_lock = 0;
        body2.color = (220, 0, 0);

        proof {
            crate::scalar::lemma_norm_sign(false, 10, 0);
        }
        let mut p = Preset::base();
        p.name = String::from_str("Equal circular binary system");
        p.bodies = vec![body1, body2];
        p.distance_per_px = 1000;
        p.dt = Scalar::from_int(10);
        p.ticks_per_press = 10_000;
        p.draw_frequency = 24 * 60 * 60;
        p
    }

    /// A binary system with unequal masses: the lighter body locked to the
    /// barycentric circular velocity, the heavier one nudged slightly off it
    /// so both travel elliptical orbits.
    pub fn unequal_binary() -> (p: Preset)
        ensures
            p.wf(),
            p.bodies@.len() == 2,
            p.dt == Scalar::spec_from_int(10),
            p.ticks_per_press == 10_000,
            p.distance_per_px == 2000,
            p.draw_frequency == 24 * 60 * 60,
    {
        let body1_pos = Position::new(Scalar::from_int(-100_000), Scalar::from_int(150_000));
        let body2_pos = Position::new(Scalar::from_int(-200_000), Scalar::from_int(150_000));

        let mut body1 = Body::blank();
        body1.name = String::from_str("1");
        body1.mass = Scalar::from_int(62_300_000_000_000_000_000_000);
        body1.radius = Scalar::from_int(8000);
        body1.absolute_pos = body1_pos;
        body1.lock_to_circular_velocity = false;
        body1.selected_vel_lock = 1;
        body1.default_expanded = true;

        let mut body2 = body1.copy();
        body2.name = String::from_str("2");
        body2.mass = Scalar::from_int(12_300_000_000_000_000_000_000);
        body2.absolute_pos = body2_pos;
        body2.lock_to_circular_velocity = true;
        body2.selected_vel_lock = 0;
        body2.color = (220, 0, 0);

        let body1_circ_v = checked_circ_velocity_bodies(&body1, &body2);
        let nudge = Velocity::new(Scalar::from_ratio(2, 100), Scalar::from_ratio(-2, 100));
        proof {
            crate::scalar::lemma_div_sign(Scalar::spec_from_int(2), Scalar::spec_from_int(100));
            crate::scalar::lemma_norm_sign(false, 2, 0);
            crate::scalar::lemma_norm_sign(false, 100, 0);
        }
        body1.v = body1_circ_v.add(nudge);
        body1.absolute_vel = body1.v;

        proof {
            crate::scalar::lemma_norm_sign(false, 10, 0);
        }
        let mut p = Preset::base();
        p.name = String::from_str("Unequal binary system");
        p.bodies = vec![body1, body2];
        p.distance_per_px = 2000;
        p.dt = Scalar::from_int(10);
        p.ticks_per_press = 10_000;
        p.draw_frequency = 24 * 60 * 60;
        p
    }
}

} // verus!
