//! The simulation driver: orchestrates per-tick state advance across the
//! hierarchy in top-down order, applies collision detection, and exposes
//! velocity locking for interactive editing before a run starts.
//!
//! The state machine per instance is `NotStarted -> Running -> {Running,
//! Stopped}`: `Stopped` (a collision) is terminal until `reset`.

use vstd::prelude::*;

verus! {

use crate::scalar::Scalar;
use crate::vector::Acceleration;
use crate::vector::Position;
use crate::vector::Velocity;
use crate::body::Body;
use crate::body::Preset;
use crate::physics::spec_gravitational_acceleration;
use crate::physics::spec_separation_cubed;
use crate::tree::BodyTree;
use crate::tree::HierarchyError;
use crate::tree::spec_children_upto;

/// Why a simulation operation was refused.
#[derive(Clone, Copy, Debug, PartialEq, Eq, Structural)]
pub enum SimError {
    /// Two interacting bodies sit at the same point: their dynamics are
    /// undefined.
    UndefinedDynamics,
    /// A velocity lock names a reference body index that does not exist.
    LockOutOfRange,
    /// A velocity lock's formula is undefined for the current configuration
    /// (coincident bodies or a vanished combined mass).
    DegenerateLock,
}

/// Whether a source's pull on `affected` counts at all: the affected body
/// must not be overwhelmingly (1000 times or more) heavier than the source.
/// A massless source never counts.
pub open spec fn spec_is_mass_significant(affected: Body, source: Body) -> bool {
    if source.mass.spec_is_zero() {
        false
    } else {
        Scalar::spec_lt(Scalar::spec_div(affected.mass, source.mass), Scalar::spec_from_int(1000))
    }
}

pub fn is_mass_significant(affected: &Body, source: &Body) -> (b: bool)
    requires
        affected.wf(),
        source.wf(),
    ensures
        b == spec_is_mass_significant(*affected, *source),
{
    if source.mass.is_zero() {
        false
    } else {
        affected.mass.div(source.mass).lt(Scalar::from_int(1000))
    }
}

/// What one source adds to the affected body's acceleration: nothing when the
/// affected body is fixed or the source is insignificant, else the
/// gravitational pull.
pub open spec fn spec_contribution(affected: Body, source: Body) -> Acceleration {
    if affected.is_fixed || !spec_is_mass_significant(affected, source) {
        Acceleration::spec_zero_vec()
    } else {
        spec_gravitational_acceleration(source.pos, affected.pos, source.mass)
    }
}

/// The total acceleration on a body from its sibling sources, summed in
/// source order.
pub open spec fn spec_calc_acceleration(affected: Body, sources: Seq<Body>) -> Acceleration
    decreases sources.len(),
{
    if sources.len() == 0 {
        Acceleration::spec_zero_vec()
    } else {
        spec_calc_acceleration(affected, sources.drop_last()).spec_add(spec_contribution(affected,
            sources.last()))
    }
}

/// Whether a source actually contributes (and so its separation matters).
pub open spec fn spec_contributes(affected: Body, source: Body) -> bool {
    !affected.is_fixed && spec_is_mass_significant(affected, source)
}

/// Every contributing source sits at a defined (nonzero-cubed) separation
/// from the affected body.
pub open spec fn spec_sources_defined(affected: Body, sources: Seq<Body>) -> bool {
    forall|k: int| 0 <= k < sources.len() && spec_contributes(affected, #[trigger] sources[k])
        ==> !spec_separation_cubed(sources[k].pos, affected.pos).spec_is_zero()
}

/// The acceleration sum reads only seed fields of the bodies involved.
pub proof fn lemma_calc_seed_equal(a1: Body, a2: Body, s1: Seq<Body>, s2: Seq<Body>)
    requires
        a1.seed() == a2.seed(),
        s1.len() == s2.len(),
        forall|i: int| 0 <= i < s1.len() ==> (#[trigger] s1[i]).seed() == s2[i].seed(),
    ensures
        spec_calc_acceleration(a1, s1) == spec_calc_acceleration(a2, s2),
        spec_sources_defined(a1, s1) == spec_sources_defined(a2, s2),
    decreases s1.len(),
{
    assert(a1.is_fixed == a2.is_fixed && a1.mass == a2.mass && a1.pos == a2.pos);
    if s1.len() > 0 {
        lemma_calc_seed_equal(a1, a2, s1.drop_last(), s2.drop_last());
        assert(s1.last().seed() == s2.last().seed());
    }
    if spec_sources_defined(a1, s1) {
        assert forall|k: int| 0 <= k < s2.len() && spec_contributes(a2,
            #[trigger] s2[k]) implies !spec_separation_cubed(s2[k].pos, a2.pos).spec_is_zero() by {
            assert(s1[k].seed() == s2[k].seed());
            assert(spec_contributes(a1, s1[k]));
            assert(!spec_separation_cubed(s1[k].pos, a1.pos).spec_is_zero());
        }
        assert(spec_sources_defined(a2, s2));
    }
    if spec_sources_defined(a2, s2) {
        assert forall|k: int| 0 <= k < s1.len() && spec_contributes(a1,
            #[trigger] s1[k]) implies !spec_separation_cubed(s1[k].pos, a1.pos).spec_is_zero() by {
            assert(s1[k].seed() == s2[k].seed());
            assert(spec_contributes(a2, s2[k]));
            assert(!spec_separation_cubed(s2[k].pos, a2.pos).spec_is_zero());
        }
        assert(spec_sources_defined(a1, s1));
    }
}

/// The acceleration sum's components are zero-canonical scalars.
proof fn lemma_calc_zc(affected: Body, sources: Seq<Body>)
    ensures
        crate::scalar::zero_canonical(spec_calc_acceleration(affected, sources).x),
        crate::scalar::zero_canonical(spec_calc_acceleration(affected, sources).y),
    decreases sources.len(),
{
    if sources.len() > 0 {
        lemma_calc_zc(affected, sources.drop_last());
        let acc = spec_calc_acceleration(affected, sources.drop_last());
        let c = spec_contribution(affected, sources.last());
        assert(crate::scalar::zero_canonical(c.x) && crate::scalar::zero_canonical(c.y)) by {
            if !(affected.is_fixed || !spec_is_mass_significant(affected, sources.last())) {
                let src = sources.last();
                let r = affected.pos.spec_minus(src.pos);
                let m = r.spec_mag();
                let den = Scalar::spec_mul(Scalar::spec_mul(m, m), m);
                let factor = Scalar::spec_div(Scalar::spec_mul(crate::physics::spec_g_km(
                ).spec_neg(), src.mass), den);
                let scaled = Scalar::spec_div(Scalar::spec_from_int(1), Scalar::spec_from_int(
                    1000));
                crate::scalar::lemma_mul_zc(Scalar::spec_mul(r.x, factor), scaled);
                crate::scalar::lemma_mul_zc(Scalar::spec_mul(r.y, factor), scaled);
            }
        }
        crate::scalar::lemma_add_zc(acc.x, c.x);
        crate::scalar::lemma_add_zc(acc.y, c.y);
    }
}

/// Mass-ratio pruning: a source that is not mass-significant for the affected
/// body exerts no measurable acceleration on it — removing that source from
/// the source list leaves the computed acceleration exactly unchanged.
pub proof fn lemma_insignificant_source_no_effect(affected: Body, sources: Seq<Body>, k: int)
    requires
        0 <= k < sources.len(),
        !spec_is_mass_significant(affected, sources[k]),
    ensures
        spec_calc_acceleration(affected, sources) == spec_calc_acceleration(affected,
            sources.remove(k)),
    decreases sources.len(),
{
    if k == sources.len() - 1 {
        assert(sources.remove(k) =~= sources.drop_last());
        let acc = spec_calc_acceleration(affected, sources.drop_last());
        lemma_calc_zc(affected, sources.drop_last());
        assert(spec_contribution(affected, sources.last()) == Acceleration::spec_zero_vec());
        crate::scalar::lemma_add_zc(acc.x, Scalar::spec_zero());
        crate::scalar::lemma_add_zc(acc.y, Scalar::spec_zero());
        assert(acc.spec_add(Acceleration::spec_zero_vec()) =~= acc);
    } else {
        lemma_insignificant_source_no_effect(affected, sources.drop_last(), k);
        assert(sources.remove(k).drop_last() =~= sources.drop_last().remove(k));
        assert(sources.remove(k).last() == sources.last());
    }
}

/// The total gravitational acceleration on a body from the given sources,
/// with the mass-significance and fixed-body exemptions applied.
#[verifier::loop_isolation(false)]
pub fn calc_acceleration(affected: &Body, sources: &Vec<Body>) -> (a: Acceleration)
    requires
        affected.wf(),
        forall|i: int| 0 <= i < sources@.len() ==> (#[trigger] sources@[i]).wf(),
        spec_sources_defined(*affected, sources@),
    ensures
        a == spec_calc_acceleration(*affected, sources@),
        a.wf(),
{
    let mut acc = Acceleration::zero();
    let mut k: usize = 0;
    while k < sources.len()
        invariant
            k <= sources@.len(),
            acc == spec_calc_acceleration(*affected, sources@.take(k as int)),
            acc.wf(),
        decreases sources@.len() - k,
    {
        proof {
            assert(sources@.take(k as int + 1).drop_last() =~= sources@.take(k as int));
            assert(sources@.take(k as int + 1).last() == sources@[k as int]);
        }
        let significant = is_mass_significant(affected, &sources[k]);
        if !affected.is_fixed && significant {
            let from_source = crate::physics::gravitational_acceleration(sources[k].pos,
                affected.pos, sources[k].mass);
            acc = acc.add(from_source);
        } else {
            proof {
                assert(Scalar::spec_add(acc.x, Scalar::spec_zero()) == acc.x);
                assert(Scalar::spec_add(acc.y, Scalar::spec_zero()) == acc.y);
                assert(acc.spec_add(spec_contribution(*affected, sources@[k as int])) =~= acc);
            }
        }
        k = k + 1;
    }
    proof {
        assert(sources@.take(sources@.len() as int) =~= sources@);
    }
    acc
}

/// The sibling group a node is updated with: the root alone for the root, its
/// parent's children for every other node.
pub open spec fn spec_group_of(ps: Seq<Option<usize>>, i: int) -> Seq<usize> {
    match ps[i] {
        Some(p) => spec_children_upto(ps, p, ps.len() as int),
        None => seq![i as usize],
    }
}

/// The other members of a group, mapped to their bodies, in group order.
pub open spec fn spec_others(bodies: Seq<Body>, g: Seq<usize>, me: usize) -> Seq<Body>
    decreases g.len(),
{
    if g.len() == 0 {
        Seq::empty()
    } else {
        spec_others(bodies, g.drop_last(), me) + (if g.last() != me {
            seq![bodies[g.last() as int]]
        } else {
            Seq::empty()
        })
    }
}

/// Sibling groups from the top of the tree down: the group of parent
/// `len - k` through the group of parent `len - 1`, skipping childless nodes.
pub open spec fn spec_groups_from_top(ps: Seq<Option<usize>>, k: int) -> Seq<Seq<usize>>
    decreases k,
{
    if k <= 0 {
        Seq::empty()
    } else {
        spec_groups_from_top(ps, k - 1) + (if spec_children_upto(ps, (ps.len() - k) as usize,
            ps.len() as int).len() > 0 {
            seq![spec_children_upto(ps, (ps.len() - k) as usize, ps.len() as int)]
        } else {
            Seq::empty()
        })
    }
}

/// All sibling groups in update order: the root's singleton group first, then
/// each parent's children, parents in descending index order (so every parent
/// is updated before its children).
pub open spec fn spec_sibling_groups(ps: Seq<Option<usize>>) -> Seq<Seq<usize>> {
    seq![seq![(ps.len() - 1) as usize]] + spec_groups_from_top(ps, ps.len() as int)
}

/// The children of node `p`, ascending.
#[verifier::loop_isolation(false)]
pub fn children_of(ps: &Vec<Option<usize>>, p: usize) -> (c: Vec<usize>)
    ensures
        c@ == spec_children_upto(ps@, p, ps@.len() as int),
{
    let mut c: Vec<usize> = Vec::new();
    let mut k: usize = 0;
    while k < ps.len()
        invariant
            k <= ps@.len(),
            c@ == spec_children_upto(ps@, p, k as int),
        decreases ps@.len() - k,
    {
        let is_child = match ps[k] {
            Some(q) => q == p,
            None => false,
        };
        if is_child {
            c.push(k);
        }
        k = k + 1;
    }
    c
}

/// Children indices are in range.
pub proof fn lemma_children_bounds(ps: Seq<Option<usize>>, p: usize, k: int)
    requires
        k <= usize::MAX as int + 1,
    ensures
        forall|j: int| 0 <= j < spec_children_upto(ps, p, k).len() ==> (
        #[trigger] spec_children_upto(ps, p, k)[j]) < k,
    decreases k,
{
    if k > 0 {
        lemma_children_bounds(ps, p, k - 1);
        let small = spec_children_upto(ps, p, k - 1);
        let big = spec_children_upto(ps, p, k);
        assert forall|j: int| 0 <= j < big.len() implies (#[trigger] big[j]) < k by {
            if j < small.len() {
                assert(big[j] == small[j]);
            } else {
                assert(big[j] == (k - 1) as usize);
            }
        }
    }
}

/// A child's stored parent is the node it is listed under.
pub proof fn lemma_children_sound(ps: Seq<Option<usize>>, p: usize, k: int)
    requires
        k <= usize::MAX as int + 1,
    ensures
        forall|j: int| 0 <= j < spec_children_upto(ps, p, k).len() ==> ps[(
        #[trigger] spec_children_upto(ps, p, k)[j]) as int] == Some(p),
    decreases k,
{
    if k > 0 {
        lemma_children_sound(ps, p, k - 1);
        lemma_children_bounds(ps, p, k);
        let small = spec_children_upto(ps, p, k - 1);
        let big = spec_children_upto(ps, p, k);
        assert forall|j: int| 0 <= j < big.len() implies ps[(#[trigger] big[j]) as int] == Some(
            p) by {
            if j < small.len() {
                assert(big[j] == small[j]);
            } else {
                assert(big[j] == (k - 1) as usize);
            }
        }
    }
}

/// How one body advances in a tick. The acceleration comes from the other
/// members of its sibling group only (cross-group forces travel through the
/// ancestor's own motion), the symplectic step advances velocity first and
/// position with the updated velocity, and the absolute state is rebuilt from
/// the parent's already-advanced absolute frame (the root uses the origin).
/// A snapshot of the new state is appended to the trajectory; everything else
/// is preserved.
pub open spec fn spec_tick_next(pre: Seq<Body>, post: Seq<Body>, ps: Seq<Option<usize>>,
    dt: Scalar, i: int) -> bool {
    let g = spec_group_of(ps, i);
    let sources = spec_others(pre, g, i as usize);
    let a = spec_calc_acceleration(pre[i], sources);
    let v = pre[i].v.spec_update(a, dt);
    let r = pre[i].pos.spec_update(v, Acceleration::spec_zero_vec(), dt);
    let p_abs = match ps[i] {
        Some(p) => post[p as int].absolute_pos,
        None => Position::spec_zero_vec(),
    };
    let p_vel = match ps[i] {
        Some(p) => post[p as int].absolute_vel,
        None => Velocity::spec_zero_vec(),
    };
    &&& post[i].pos == r
    &&& post[i].v == v
    &&& post[i].computed_a == a
    &&& post[i].absolute_pos == p_abs.spec_add(r)
    &&& post[i].absolute_vel == p_vel.spec_add(v)
    &&& post[i].name == pre[i].name
    &&& post[i].mass == pre[i].mass
    &&& post[i].radius == pre[i].radius
    &&& post[i].is_fixed == pre[i].is_fixed
    &&& post[i].is_barycenter == pre[i].is_barycenter
    &&& post[i].lock_to_circular_velocity == pre[i].lock_to_circular_velocity
    &&& post[i].lock_to_escape_velocity == pre[i].lock_to_escape_velocity
    &&& post[i].selected_vel_lock == pre[i].selected_vel_lock
    &&& post[i].color == pre[i].color
    &&& post[i].default_expanded == pre[i].default_expanded
    &&& post[i].trajectory@.len() == pre[i].trajectory@.len() + 1
    &&& (forall|t: int| 0 <= t < pre[i].trajectory@.len() ==> post[i].trajectory@[t] == pre[
    i].trajectory@[t])
    &&& post[i].trajectory@.last().seed() == post[i].seed()
    &&& post[i].trajectory@.last().trajectory@.len() == 0
}

/// The whole tick is defined: every body sits at a nonzero separation from
/// each of its contributing sibling sources.
pub open spec fn spec_tick_defined(bodies: Seq<Body>, ps: Seq<Option<usize>>) -> bool {
    forall|i: int| 0 <= i < bodies.len() ==> spec_sources_defined(#[trigger] bodies[i],
        spec_others(bodies, spec_group_of(ps, i), i as usize))
}

/// `spec_others` reads only the entries at group-member positions.
proof fn lemma_others_members_equal(b1: Seq<Body>, b2: Seq<Body>, g: Seq<usize>, me: usize)
    requires
        forall|m: int| 0 <= m < g.len() ==> b1[(#[trigger] g[m]) as int] == b2[g[m] as int],
    ensures
        spec_others(b1, g, me) == spec_others(b2, g, me),
    decreases g.len(),
{
    if g.len() > 0 {
        lemma_others_members_equal(b1, b2, g.drop_last(), me);
    }
}

/// The other members of the group, copied in group order.
#[verifier::loop_isolation(false)]
fn gather_others(bodies: &Vec<Body>, g: &Vec<usize>, me: usize) -> (r: Vec<Body>)
    requires
        forall|m: int| 0 <= m < g@.len() ==> (#[trigger] g@[m]) < bodies@.len(),
        forall|i: int| 0 <= i < bodies@.len() ==> (#[trigger] bodies@[i]).wf(),
    ensures
        r@.len() == spec_others(bodies@, g@, me).len(),
        forall|k: int| 0 <= k < r@.len() ==> (#[trigger] r@[k]).seed() == spec_others(bodies@, g@,
            me)[k].seed(),
        forall|k: int| 0 <= k < r@.len() ==> (#[trigger] r@[k]).wf(),
{
    let mut r: Vec<Body> = Vec::new();
    let mut m: usize = 0;
    while m < g.len()
        invariant
            m <= g@.len(),
            r@.len() == spec_others(bodies@, g@.take(m as int), me).len(),
            forall|k: int| 0 <= k < r@.len() ==> (#[trigger] r@[k]).seed() == spec_others(bodies@,
                g@.take(m as int), me)[k].seed(),
            forall|k: int| 0 <= k < r@.len() ==> (#[trigger] r@[k]).wf(),
        decreases g@.len() - m,
    {
        proof {
            assert(g@.take(m as int + 1).drop_last() =~= g@.take(m as int));
            assert(g@.take(m as int + 1).last() == g@[m as int]);
        }
        if g[m] != me {
            r.push(bodies[g[m]].copy());
        }
        m = m + 1;
    }
    proof {
        assert(g@.take(g@.len() as int) =~= g@);
    }
    r
}

/// Whether every contributing source of `affected` sits at a defined
/// separation.
#[verifier::loop_isolation(false)]
fn sources_defined(affected: &Body, sources: &Vec<Body>) -> (ok: bool)
    requires
        affected.wf(),
        forall|i: int| 0 <= i < sources@.len() ==> (#[trigger] sources@[i]).wf(),
    ensures
        ok == spec_sources_defined(*affected, sources@),
{
    let mut ok = true;
    let mut k: usize = 0;
    while k < sources.len()
        invariant
            k <= sources@.len(),
            ok == (forall|t: int| 0 <= t < k && spec_contributes(*affected,
                #[trigger] sources@[t]) ==> !spec_separation_cubed(sources@[t].pos,
                affected.pos).spec_is_zero()),
        decreases sources@.len() - k,
    {
        let significant = is_mass_significant(affected, &sources[k]);
        if !affected.is_fixed && significant {
            let m = affected.pos.minus(sources[k].pos).mag();
            let den = m.mul(m).mul(m);
            if den.is_zero() {
                ok = false;
            }
        }
        k = k + 1;
    }
    ok
}

/// Advance one sibling group: accelerations and symplectic steps for every
/// member are computed from the group's pre-tick state, then applied, with
/// each member's absolute frame rebuilt from its (already advanced) parent.
#[verifier::loop_isolation(false)]
#[verifier::rlimit(100)]
fn update_group(tree: &mut BodyTree, g: &Vec<usize>, dt: Scalar, Ghost(pre): Ghost<Seq<Body>>)
    requires
        old(tree).bodies@.len() == old(tree).parent@.len(),
        forall|i: int| 0 <= i < old(tree).bodies@.len() ==> (#[trigger] old(
        tree).bodies@[i]).wf(),
        dt.wf(),
        pre.len() == old(tree).bodies@.len(),
        forall|i: int| 0 <= i < pre.len() ==> (#[trigger] pre[i]).wf(),
        forall|i: int| 0 <= i < old(tree).parent@.len() && (#[trigger] old(
        tree).parent@[i]) is Some ==> old(tree).parent@[i].unwrap() < old(tree).parent@.len(),
        forall|m: int| 0 <= m < g@.len() ==> (#[trigger] g@[m]) < old(tree).bodies@.len(),
        forall|m: int, m2: int| 0 <= m < m2 < g@.len() ==> (#[trigger] g@[m]) != (
        #[trigger] g@[m2]),
        forall|m: int| 0 <= m < g@.len() ==> spec_group_of(old(tree).parent@, (
        #[trigger] g@[m]) as int) == g@,
        forall|m: int| 0 <= m < g@.len() ==> old(tree).bodies@[(#[trigger] g@[m]) as int] == pre[
        g@[m] as int],
        forall|m: int| 0 <= m < g@.len() ==> spec_sources_defined(pre[(#[trigger] g@[m]) as int],
            spec_others(pre, g@, g@[m])),
        forall|m: int| 0 <= m < g@.len() ==> match old(tree).parent@[(#[trigger] g@[m]) as int] {
            Some(p) => !g@.contains(p),
            None => true,
        },
    ensures
        final(tree).parent@ == old(tree).parent@,
        final(tree).root == old(tree).root,
        final(tree).bodies@.len() == old(tree).bodies@.len(),
        forall|i: int| 0 <= i < final(tree).bodies@.len() && !g@.contains(i as usize) ==> (
        #[trigger] final(tree).bodies@[i]) == old(tree).bodies@[i],
        forall|m: int| 0 <= m < g@.len() ==> spec_tick_next(pre, final(tree).bodies@,
            old(tree).parent@, dt, (#[trigger] g@[m]) as int),
        forall|i: int| 0 <= i < final(tree).bodies@.len() ==> (#[trigger] final(
        tree).bodies@[i]).wf(),
{
    let ghost ps = tree.parent@;
    let mut upd: Vec<(usize, Position, Velocity, Acceleration)> = Vec::new();
    let mut m: usize = 0;
    while m < g.len()
        invariant
            m <= g@.len(),
            upd@.len() == m,
            forall|t: int| 0 <= t < m ==> (#[trigger] upd@[t]).0 == g@[t],
            forall|t: int|
                0 <= t < m ==> {
                    let a = spec_calc_acceleration(pre[g@[t] as int], spec_others(pre, g@, g@[t]));
                    let v = pre[g@[t] as int].v.spec_update(a, dt);
                    let r = pre[g@[t] as int].pos.spec_update(v, Acceleration::spec_zero_vec(),
                        dt);
                    (#[trigger] upd@[t]).1 == r && upd@[t].2 == v && upd@[t].3 == a
                        && upd@[t].1.wf() && upd@[t].2.wf() && upd@[t].3.wf()
                },
        decreases g@.len() - m,
    {
        let idx = g[m];
        let sources = gather_others(&tree.bodies, g, idx);
        proof {
            lemma_others_members_equal(tree.bodies@, pre, g@, idx);
            lemma_calc_seed_equal(tree.bodies@[idx as int], pre[idx as int], sources@,
                spec_others(pre, g@, idx));
        }
        let a = calc_acceleration(&tree.bodies[idx], &sources);
        let (r, v) = crate::physics::symplectic_euler_calc(tree.bodies[idx].pos,
            tree.bodies[idx].v, a, dt);
        upd.push((idx, r, v, a));
        m = m + 1;
    }
    let ghost mid = tree.bodies@;
    let mut t: usize = 0;
    while t < upd.len()
        invariant
            t <= upd@.len(),
            upd@.len() == g@.len(),
            tree.parent@ == ps,
            tree.root == old(tree).root,
            tree.bodies@.len() == mid.len(),
            forall|i: int| 0 <= i < tree.bodies@.len() && !g@.take(t as int).contains(i as usize)
                ==> (#[trigger] tree.bodies@[i]) == mid[i],
            forall|u: int| 0 <= u < t ==> spec_tick_next(pre, tree.bodies@, ps, dt, (
            #[trigger] g@[u]) as int),
            forall|i: int| 0 <= i < tree.bodies@.len() ==> (#[trigger] tree.bodies@[i]).wf(),
        decreases upd@.len() - t,
    {
        let entry = upd[t];
        let idx = entry.0;
        proof {
            assert(upd@[t as int].0 == g@[t as int]);
            assert(!g@.take(t as int).contains(idx)) by {
                if g@.take(t as int).contains(idx) {
                    let w = choose|w: int| 0 <= w < t && (#[trigger] g@.take(t as int)[w]) == idx;
                    assert(g@[w] == g@[t as int]);
                }
            }
        }
        let parent_entry = tree.parent[idx];
        let (p_abs, p_vel) = match parent_entry {
            Some(p) => (tree.bodies[p].absolute_pos, tree.bodies[p].absolute_vel),
            None => (Position::zero(), Velocity::zero()),
        };
        let ghost before = tree.bodies@;
        let b = &mut tree.bodies[idx];
        b.update(entry.1, entry.2, entry.3, p_abs, p_vel);
        proof {
            assert(tree.bodies@ =~= before.update(idx as int, tree.bodies@[idx as int]));
            // the member now satisfies the tick relation
            assert(spec_tick_next(pre, tree.bodies@, ps, dt, idx as int)) by {
                assert(before[idx as int] == pre[idx as int]);
            }
            // earlier members' relations persist: their entries and their
            // parents' entries are untouched
            assert forall|u: int| 0 <= u < t + 1 implies spec_tick_next(pre, tree.bodies@, ps, dt,
                (#[trigger] g@[u]) as int) by {
                if u < t {
                    assert(g@[u] != g@[t as int]);
                    assert(tree.bodies@[g@[u] as int] == before[g@[u] as int]);
                    match ps[g@[u] as int] {
                        Some(p) => {
                            assert(!g@.contains(p));
                            assert(p != idx) by {
                                if p == idx {
                                    assert(g@[t as int] == p);
                                }
                            }
                            assert(tree.bodies@[p as int] == before[p as int]);
                        },
                        None => {
                        },
                    }
                }
            }
            assert forall|i: int| 0 <= i < tree.bodies@.len() && !g@.take(t as int + 1).contains(
                i as usize) implies (#[trigger] tree.bodies@[i]) == mid[i] by {
                assert(i != idx) by {
                    if i == idx {
                        assert(g@.take(t as int + 1)[t as int] == idx);
                    }
                }
                assert(!g@.take(t as int).contains(i as usize)) by {
                    if g@.take(t as int).contains(i as usize) {
                        let w = choose|w: int| 0 <= w < t && (#[trigger] g@.take(t as int)[w])
                            == i as usize;
                        assert(g@.take(t as int + 1)[w] == i as usize);
                    }
                }
            }
        }
        t = t + 1;
    }
    proof {
        assert(g@.take(g@.len() as int) =~= g@);
        assert forall|i: int| 0 <= i < tree.bodies@.len() && !g@.contains(i as usize) implies (
        #[trigger] tree.bodies@[i]) == old(tree).bodies@[i] by {
            assert(!g@.take(g@.len() as int).contains(i as usize));
        }
    }
}

/// Children are listed in strictly increasing order.
pub proof fn lemma_children_increasing(ps: Seq<Option<usize>>, p: usize, k: int)
    requires
        k <= usize::MAX as int + 1,
    ensures
        forall|m: int, m2: int| 0 <= m < m2 < spec_children_upto(ps, p, k).len() ==> (
        #[trigger] spec_children_upto(ps, p, k)[m]) < (#[trigger] spec_children_upto(ps, p,
            k)[m2]),
    decreases k,
{
    if k > 0 {
        lemma_children_increasing(ps, p, k - 1);
        lemma_children_bounds(ps, p, k - 1);
        let small = spec_children_upto(ps, p, k - 1);
        let big = spec_children_upto(ps, p, k);
        assert forall|m: int, m2: int| 0 <= m < m2 < big.len() implies (#[trigger] big[m]) < (
        #[trigger] big[m2]) by {
            if m2 < small.len() {
                assert(big[m] == small[m] && big[m2] == small[m2]);
            } else {
                assert(big[m] == small[m] && big[m2] == (k - 1) as usize);
            }
        }
    }
}

/// Advance the whole tree one tick in top-down order: the root's singleton
/// group first, then each parent's children, parents in descending index
/// order so a parent's new absolute frame is in place before its children
/// rebuild theirs. When two interacting bodies coincide, nothing changes and
/// the undefined dynamics are reported instead.
#[verifier::loop_isolation(false)]
#[verifier::rlimit(100)]
pub fn advance_tree(tree: &mut BodyTree, dt: Scalar) -> (r: Result<(), SimError>)
    requires
        old(tree).wf(),
        dt.wf(),
    ensures
        final(tree).parent@ == old(tree).parent@,
        final(tree).root == old(tree).root,
        final(tree).bodies@.len() == old(tree).bodies@.len(),
        final(tree).wf(),
        (r is Ok) == spec_tick_defined(old(tree).bodies@, old(tree).parent@),
        r matches Err(e) ==> e == SimError::UndefinedDynamics && *final(tree) == *old(tree),
        r is Ok ==> forall|i: int| 0 <= i < final(tree).bodies@.len() ==> spec_tick_next(
            old(tree).bodies@, final(tree).bodies@, old(tree).parent@, dt, i),
{
    let ghost pre = tree.bodies@;
    let ghost ps = tree.parent@;
    let n = tree.bodies.len();
    let mut i: usize = 0;
    let mut all_ok = true;
    while i < n
        invariant
            i <= n,
            tree.bodies@ == pre,
            tree.parent@ == ps,
            all_ok == (forall|j: int| 0 <= j < i ==> spec_sources_defined(#[trigger] pre[j],
                spec_others(pre, spec_group_of(ps, j), j as usize))),
        decreases n - i,
    {
        let group: Vec<usize> = match tree.parent[i] {
            Some(p) => children_of(&tree.parent, p),
            None => {
                let mut s: Vec<usize> = Vec::new();
                s.push(i);
                s
            },
        };
        proof {
            assert(group@ == spec_group_of(ps, i as int)) by {
                match ps[i as int] {
                    Some(p) => {
                    },
                    None => {
                        assert(group@ =~= seq![i]);
                    },
                }
            }
            match ps[i as int] {
                Some(p) => {
                    lemma_children_bounds(ps, p, n as int);
                },
                None => {
                },
            }
        }
        let sources = gather_others(&tree.bodies, &group, i);
        proof {
            lemma_calc_seed_equal(tree.bodies@[i as int], pre[i as int], sources@, spec_others(
                pre, spec_group_of(ps, i as int), i));
        }
        let ok_i = sources_defined(&tree.bodies[i], &sources);
        if !ok_i {
            all_ok = false;
        }
        i = i + 1;
    }
    if !all_ok {
        return Err(SimError::UndefinedDynamics);
    }
    assert(spec_tick_defined(pre, ps));

    let root = n - 1;
    let mut rg: Vec<usize> = Vec::new();
    rg.push(root);
    proof {
        assert(rg@ =~= seq![root]);
        assert(spec_group_of(ps, root as int) == seq![root]);
    }
    update_group(tree, &rg, dt, Ghost(pre));
    proof {
        assert(spec_tick_next(pre, tree.bodies@, ps, dt, root as int));
    }
    let mut p = n;
    while p > 0
        invariant
            p <= n,
            tree.parent@ == ps,
            tree.root == old(tree).root,
            tree.bodies@.len() == n,
            forall|i2: int| 0 <= i2 < n ==> (#[trigger] tree.bodies@[i2]).wf(),
            forall|i2: int|
                0 <= i2 < n ==> (if i2 == n - 1 || (ps[i2] is Some && ps[i2].unwrap() as int
                    >= p) {
                    spec_tick_next(pre, tree.bodies@, ps, dt, i2)
                } else {
                    (#[trigger] tree.bodies@[i2]) == pre[i2]
                }),
        decreases p,
    {
        p = p - 1;
        let ghost before = tree.bodies@;
        let g = children_of(&tree.parent, p);
        proof {
            lemma_children_bounds(ps, p, n as int);
            lemma_children_sound(ps, p, n as int);
            lemma_children_increasing(ps, p, n as int);
            assert forall|m: int| 0 <= m < g@.len() implies spec_group_of(ps, (
            #[trigger] g@[m]) as int) == g@ by {
                assert(ps[g@[m] as int] == Some(p));
            }
            assert forall|m: int| 0 <= m < g@.len() implies tree.bodies@[(
            #[trigger] g@[m]) as int] == pre[g@[m] as int] by {
                assert(ps[g@[m] as int] == Some(p));
                assert(g@[m] as int != n - 1);
            }
            assert forall|m: int| 0 <= m < g@.len() implies match ps[(#[trigger] g@[m]) as int] {
                Some(q) => !g@.contains(q),
                None => true,
            } by {
                assert(ps[g@[m] as int] == Some(p));
                if g@.contains(p) {
                    let w = choose|w: int| 0 <= w < g@.len() && (#[trigger] g@[w]) == p;
                    assert(ps[p as int] == Some(p));
                }
            }
        }
        update_group(tree, &g, dt, Ghost(pre));
        proof {
            assert forall|i2: int|
                0 <= i2 < n implies (if i2 == n - 1 || (ps[i2] is Some && ps[i2].unwrap() as int
                    >= p) {
                    spec_tick_next(pre, tree.bodies@, ps, dt, i2)
                } else {
                    (#[trigger] tree.bodies@[i2]) == pre[i2]
                }) by {
                if i2 == n - 1 || (ps[i2] is Some && ps[i2].unwrap() as int >= p) {
                    if ps[i2] is Some && ps[i2].unwrap() == p {
                        // freshly updated this group
                        lemma_children_complete(ps, p, n as int, i2 as usize);
                        let w = choose|w: int| 0 <= w < g@.len() && (#[trigger] g@[w])
                            == i2 as usize;
                        assert(spec_tick_next(pre, tree.bodies@, ps, dt, i2));
                    } else {
                        // already done: neither its entry nor its parent's was touched
                        assert(!g@.contains(i2 as usize)) by {
                            if g@.contains(i2 as usize) {
                                let w = choose|w: int| 0 <= w < g@.len() && (#[trigger] g@[w])
                                    == i2 as usize;
                                assert(ps[i2] == Some(p));
                            }
                        }
                        assert(tree.bodies@[i2] == before[i2]);
                        match ps[i2] {
                            Some(q) => {
                                assert(!g@.contains(q)) by {
                                    if g@.contains(q) {
                                        let w = choose|w: int| 0 <= w < g@.len() && (
                                        #[trigger] g@[w]) == q;
                                        assert(ps[q as int] == Some(p));
                                        assert(q as int > i2);
                                        assert(q < p);
                                    }
                                }
                                assert(tree.bodies@[q as int] == before[q as int]);
                            },
                            None => {
                                assert(!g@.contains(i2 as usize));
                            },
                        }
                        assert(spec_tick_next(pre, before, ps, dt, i2));
                        assert(spec_tick_next(pre, tree.bodies@, ps, dt, i2));
                    }
                } else {
                    assert(!g@.contains(i2 as usize)) by {
                        if g@.contains(i2 as usize) {
                            let w = choose|w: int| 0 <= w < g@.len() && (#[trigger] g@[w])
                                == i2 as usize;
                            assert(ps[i2] == Some(p));
                        }
                    }
                }
            }
        }
    }
    proof {
        assert forall|i2: int| 0 <= i2 < n implies spec_tick_next(pre, tree.bodies@, ps, dt,
            i2) by {
            if i2 != n - 1 {
                assert(ps[i2] is Some);
                assert(ps[i2].unwrap() as int >= 0);
            }
        }
    }
    Ok(())
}

/// Two physical bodies collide when the distance between their absolute
/// positions is at most the sum of their radii; synthetic barycenters never
/// collide.
pub open spec fn spec_pair_collides(a: Body, b: Body) -> bool {
    &&& !a.is_barycenter
    &&& !b.is_barycenter
    &&& Scalar::spec_le(a.absolute_pos.spec_abs_diff(b.absolute_pos), Scalar::spec_add(a.radius,
        b.radius))
}

/// The first colliding pair in lexicographic index order, if any.
#[verifier::loop_isolation(false)]
pub fn check_collisions(bodies: &Vec<Body>) -> (r: Option<(usize, usize)>)
    requires
        forall|i: int| 0 <= i < bodies@.len() ==> (#[trigger] bodies@[i]).wf(),
    ensures
        r matches Some(pr) ==> pr.0 < pr.1 < bodies@.len() && spec_pair_collides(
            bodies@[pr.0 as int], bodies@[pr.1 as int]) && (forall|x: int, y: int| 0 <= x < y
            < bodies@.len() && (x < pr.0 || (x == pr.0 && y < pr.1)) ==> !spec_pair_collides(
            #[trigger] bodies@[x], #[trigger] bodies@[y])),
        r is None ==> forall|x: int, y: int| 0 <= x < y < bodies@.len() ==> !spec_pair_collides(
            #[trigger] bodies@[x], #[trigger] bodies@[y]),
{
    let mut i: usize = 0;
    while i < bodies.len()
        invariant
            i <= bodies@.len(),
            forall|x: int, y: int| 0 <= x < y < bodies@.len() && x < i ==> !spec_pair_collides(
                #[trigger] bodies@[x], #[trigger] bodies@[y]),
        decreases bodies@.len() - i,
    {
        let mut j: usize = i + 1;
        while j < bodies.len()
            invariant
                i < j <= bodies@.len() || j == i + 1,
                i < bodies@.len(),
                forall|y: int| i < y < j ==> !spec_pair_collides(bodies@[i as int],
                    #[trigger] bodies@[y]),
                forall|x: int, y: int| 0 <= x < y < bodies@.len() && x < i
                    ==> !spec_pair_collides(#[trigger] bodies@[x], #[trigger] bodies@[y]),
            decreases bodies@.len() - j,
        {
            if !bodies[i].is_barycenter && !bodies[j].is_barycenter {
                let distance_between = bodies[i].absolute_pos.minus(bodies[j].absolute_pos).mag();
                let radii = bodies[i].radius.add(bodies[j].radius);
                if distance_between.le(radii) {
                    return Some((i, j));
                }
            }
            j = j + 1;
        }
        i = i + 1;
    }
    None
}

/// All sibling groups in update order: the root's singleton group first, then
/// each parent's children, parents descending, childless parents skipped.
#[verifier::loop_isolation(false)]
pub fn sibling_groups(ps: &Vec<Option<usize>>) -> (groups: Vec<Vec<usize>>)
    requires
        ps@.len() > 0,
    ensures
        crate::tree::deep_view_of(groups@) == spec_sibling_groups(ps@),
        forall|t: int, j: int| 0 <= t < groups@.len() && 0 <= j < (#[trigger] groups@[t])@.len()
            ==> (#[trigger] groups@[t]@[j]) < ps@.len(),
{
    let n = ps.len();
    let mut groups: Vec<Vec<usize>> = Vec::new();
    let mut rg: Vec<usize> = Vec::new();
    rg.push(n - 1);
    groups.push(rg);
    proof {
        assert(crate::tree::deep_view_of(groups@) =~= seq![seq![(n - 1) as usize]]);
        assert(crate::tree::deep_view_of(groups@) =~= seq![seq![(ps@.len() - 1) as usize]]
            + spec_groups_from_top(ps@, 0));
    }
    let mut k: usize = 0;
    while k < n
        invariant
            k <= n,
            n == ps@.len(),
            crate::tree::deep_view_of(groups@) == seq![seq![(ps@.len() - 1) as usize]]
                + spec_groups_from_top(ps@, k as int),
            forall|t: int, j: int| 0 <= t < groups@.len() && 0 <= j < (
            #[trigger] groups@[t])@.len() ==> (#[trigger] groups@[t]@[j]) < ps@.len(),
        decreases n - k,
    {
        let g = children_of(ps, n - 1 - k);
        proof {
            lemma_children_bounds(ps@, (n - 1 - k) as usize, n as int);
        }
        if g.len() > 0 {
            let ghost pregroups = crate::tree::deep_view_of(groups@);
            groups.push(g);
            proof {
                assert(crate::tree::deep_view_of(groups@) =~= pregroups.push(
                    spec_children_upto(ps@, (n - 1 - k) as usize, ps@.len() as int)));
                assert(crate::tree::deep_view_of(groups@) =~= seq![seq![(ps@.len()
                    - 1) as usize]] + spec_groups_from_top(ps@, k as int + 1));
            }
        } else {
            proof {
                assert(crate::tree::deep_view_of(groups@) =~= seq![seq![(ps@.len()
                    - 1) as usize]] + spec_groups_from_top(ps@, k as int + 1));
            }
        }
        k = k + 1;
    }
    groups
}

/// The pairwise potential of member `m` against the members after it, up to
/// position `j`, summed in order.
pub open spec fn spec_pot_upto(bodies: Seq<Body>, g: Seq<usize>, m: int, j: int) -> Scalar
    decreases (if j <= m + 1 { 0int } else { j - m - 1 }),
{
    if j <= m + 1 {
        Scalar::spec_zero()
    } else {
        Scalar::spec_add(spec_pot_upto(bodies, g, m, j - 1),
            crate::physics::spec_gravitational_potential_energy(bodies[g[m] as int].mass,
                bodies[g[j - 1] as int].mass, bodies[g[m] as int].pos, bodies[g[j - 1] as int].pos))
    }
}

/// Kinetic and pairwise potential energy of a group's first `m` members.
pub open spec fn spec_group_energy_upto(bodies: Seq<Body>, g: Seq<usize>, m: int) -> (Scalar,
    Scalar)
    decreases m,
{
    if m <= 0 {
        (Scalar::spec_zero(), Scalar::spec_zero())
    } else {
        let prev = spec_group_energy_upto(bodies, g, m - 1);
        (Scalar::spec_add(prev.0, crate::physics::spec_kinetic_energy(bodies[g[m
            - 1] as int].mass, bodies[g[m - 1] as int].v)), Scalar::spec_add(prev.1,
            spec_pot_upto(bodies, g, m - 1, g.len() as int)))
    }
}

/// Kinetic and potential energy summed over the first `t` sibling groups.
pub open spec fn spec_total_energy_upto(bodies: Seq<Body>, groups: Seq<Seq<usize>>,
    t: int) -> (Scalar, Scalar)
    decreases t,
{
    if t <= 0 {
        (Scalar::spec_zero(), Scalar::spec_zero())
    } else {
        let prev = spec_total_energy_upto(bodies, groups, t - 1);
        let ge = spec_group_energy_upto(bodies, groups[t - 1], groups[t - 1].len() as int);
        (Scalar::spec_add(prev.0, ge.0), Scalar::spec_add(prev.1, ge.1))
    }
}

/// The aggregate kinetic and pairwise-within-group potential energy of the
/// whole tree (cross-group potential is deliberately not counted, matching
/// the force computation).
pub open spec fn spec_current_energy(bodies: Seq<Body>, ps: Seq<Option<usize>>) -> (Scalar,
    Scalar) {
    let groups = spec_sibling_groups(ps);
    spec_total_energy_upto(bodies, groups, groups.len() as int)
}

/// Every within-group pair sits at a nonzero local separation, so the
/// pairwise potentials are defined.
pub open spec fn spec_energy_defined(bodies: Seq<Body>, ps: Seq<Option<usize>>) -> bool {
    let groups = spec_sibling_groups(ps);
    forall|t: int, m: int, j: int| 0 <= t < groups.len() && 0 <= m < j < (
    #[trigger] groups[t]).len() ==> !bodies[(#[trigger] groups[t][m]) as int].pos.spec_minus(
        bodies[(#[trigger] groups[t][j]) as int].pos).spec_mag().spec_is_zero()
}

/// The pairwise potential of member `m` against every member after it, or
/// the coincident pair that makes it undefined.
#[verifier::loop_isolation(false)]
#[verifier::rlimit(100)]
fn member_potential(tree: &BodyTree, g: &Vec<usize>, m: usize) -> (r: Result<Scalar, SimError>)
    requires
        tree.wf(),
        forall|j: int| 0 <= j < g@.len() ==> (#[trigger] g@[j]) < tree.bodies@.len(),
        m < g@.len(),
    ensures
        (r is Ok) == (forall|j2: int| (m as int) < j2 < g@.len() ==> !tree.bodies@[(
        #[trigger] g@[m as int]) as int].pos.spec_minus(tree.bodies@[(#[trigger] g@[j2]) as int
        ].pos).spec_mag().spec_is_zero()),
        r matches Ok(p) ==> p == spec_pot_upto(tree.bodies@, g@, m as int, g@.len() as int)
            && p.wf(),
        r matches Err(e) ==> e == SimError::UndefinedDynamics,
{
    let ghost bs = tree.bodies@;
    let glen = g.len();
    let idx = g[m];
    let mut pot = Scalar::zero();
    let mut j: usize = m + 1;
    while j < g.len()
        invariant
            m < j <= g@.len() || j == m + 1,
            pot == spec_pot_upto(bs, g@, m as int, j as int),
            pot.wf(),
            forall|j2: int| (m as int) < j2 < j ==> !bs[(#[trigger] g@[m as int]) as int
            ].pos.spec_minus(bs[(#[trigger] g@[j2]) as int].pos).spec_mag().spec_is_zero(),
        decreases g@.len() - j,
    {
        let jdx = g[j];
        let sep = tree.bodies[idx].pos.minus(tree.bodies[jdx].pos).mag();
        if sep.is_zero() {
            return Err(SimError::UndefinedDynamics);
        }
        pot = pot.add(crate::physics::gravitational_potential_energy(tree.bodies[idx].mass,
            tree.bodies[jdx].mass, tree.bodies[idx].pos, tree.bodies[jdx].pos));
        j = j + 1;
    }
    Ok(pot)
}

/// One sibling group's kinetic and pairwise potential energy, or the
/// coincident pair that makes a potential undefined.
#[verifier::loop_isolation(false)]
#[verifier::rlimit(100)]
fn group_energy(tree: &BodyTree, g: &Vec<usize>) -> (r: Result<(Scalar, Scalar), SimError>)
    requires
        tree.wf(),
        forall|j: int| 0 <= j < g@.len() ==> (#[trigger] g@[j]) < tree.bodies@.len(),
    ensures
        (r is Ok) == (forall|m2: int, j2: int| 0 <= m2 < j2 < g@.len() ==> !tree.bodies@[(
        #[trigger] g@[m2]) as int].pos.spec_minus(tree.bodies@[(#[trigger] g@[j2]) as int
        ].pos).spec_mag().spec_is_zero()),
        r matches Ok(e) ==> e == spec_group_energy_upto(tree.bodies@, g@, g@.len() as int)
            && e.0.wf() && e.1.wf(),
        r matches Err(e) ==> e == SimError::UndefinedDynamics,
{
    let ghost bs = tree.bodies@;
    let mut gk = Scalar::zero();
    let mut gp = Scalar::zero();
    let mut m: usize = 0;
    while m < g.len()
        invariant
            m <= g@.len(),
            (gk, gp) == spec_group_energy_upto(bs, g@, m as int),
            gk.wf(),
            gp.wf(),
            forall|m2: int, j2: int| 0 <= m2 < m && m2 < j2 < g@.len() ==> !bs[(
            #[trigger] g@[m2]) as int].pos.spec_minus(bs[(#[trigger] g@[j2]) as int
            ].pos).spec_mag().spec_is_zero(),
        decreases g@.len() - m,
    {
        let idx = g[m];
        let k_m = crate::physics::kinetic_energy(tree.bodies[idx].mass, tree.bodies[idx].v);
        let pot = match member_potential(tree, g, m) {
            Ok(p) => p,
            Err(e) => {
                return Err(e);
            },
        };
        gk = gk.add(k_m);
        gp = gp.add(pot);
        m = m + 1;
    }
    Ok((gk, gp))
}

/// Compute the tree's kinetic and pairwise potential energy, group by group,
/// or report that coincident bodies make a potential undefined.
#[verifier::loop_isolation(false)]
#[verifier::rlimit(100)]
pub fn current_energy(tree: &BodyTree) -> (r: Result<(Scalar, Scalar), SimError>)
    requires
        tree.wf(),
    ensures
        (r is Ok) == spec_energy_defined(tree.bodies@, tree.parent@),
        r matches Ok(e) ==> e == spec_current_energy(tree.bodies@, tree.parent@) && e.0.wf()
            && e.1.wf(),
        r matches Err(er) ==> er == SimError::UndefinedDynamics,
{
    let ghost bs = tree.bodies@;
    let groups = sibling_groups(&tree.parent);
    let ghost gv = crate::tree::deep_view_of(groups@);
    let mut kinetic = Scalar::zero();
    let mut potential = Scalar::zero();
    let mut t: usize = 0;
    while t < groups.len()
        invariant
            t <= groups@.len(),
            (kinetic, potential) == spec_total_energy_upto(bs, gv, t as int),
            kinetic.wf(),
            potential.wf(),
            forall|t2: int, m2: int, j2: int| 0 <= t2 < t && 0 <= m2 < j2 < (
            #[trigger] gv[t2]).len() ==> !bs[(#[trigger] gv[t2][m2]) as int].pos.spec_minus(bs[(
            #[trigger] gv[t2][j2]) as int].pos).spec_mag().spec_is_zero(),
        decreases groups@.len() - t,
    {
        proof {
            assert(groups@[t as int]@ == gv[t as int]);
        }
        let ge = match group_energy(tree, &groups[t]) {
            Ok(e) => e,
            Err(e) => {
                return Err(e);
            },
        };
        kinetic = kinetic.add(ge.0);
        potential = potential.add(ge.1);
        t = t + 1;
    }
    Ok((kinetic, potential))
}

/// The energy diagnostic: kinetic, potential, the initial total captured at
/// `start`, and the drift percentage `(current / initial) * 100`.
#[derive(Clone, Copy, Debug)]
pub struct Analysis {
    pub initial_e: Scalar,
    pub kinetic_e: Scalar,
    pub gravitational_e: Scalar,
    pub diff_percentage: Scalar,
}

impl Analysis {
    pub open spec fn wf(self) -> bool {
        self.initial_e.wf() && self.kinetic_e.wf() && self.gravitational_e.wf()
            && self.diff_percentage.wf()
    }

    /// The refreshed snapshot: current energies, drift relative to the
    /// captured initial total (zero drift reported before any total exists).
    pub open spec fn spec_analyze(self, bodies: Seq<Body>, ps: Seq<Option<usize>>) -> Analysis {
        let e = spec_current_energy(bodies, ps);
        let total = Scalar::spec_add(e.0, e.1);
        Analysis {
            kinetic_e: e.0,
            gravitational_e: e.1,
            diff_percentage: if !self.initial_e.spec_is_zero() {
                Scalar::spec_mul(Scalar::spec_div(total, self.initial_e), Scalar::spec_from_int(
                    100))
            } else {
                Scalar::spec_zero()
            },
            initial_e: self.initial_e,
        }
    }

    pub fn blank() -> (a: Analysis)
        ensures
            a.wf(),
            a.initial_e == Scalar::spec_zero(),
            a.kinetic_e == Scalar::spec_zero(),
            a.gravitational_e == Scalar::spec_zero(),
            a.diff_percentage == Scalar::spec_zero(),
    {
        Analysis {
            initial_e: Scalar::zero(),
            kinetic_e: Scalar::zero(),
            gravitational_e: Scalar::zero(),
            diff_percentage: Scalar::zero(),
        }
    }

    /// Recompute the snapshot from the current tree state.
    pub fn analyze(&self, tree: &BodyTree) -> (r: Result<Analysis, SimError>)
        requires
            tree.wf(),
            self.wf(),
        ensures
            (r is Ok) == spec_energy_defined(tree.bodies@, tree.parent@),
            r matches Ok(a) ==> a == self.spec_analyze(tree.bodies@, tree.parent@) && a.wf(),
            r matches Err(e) ==> e == SimError::UndefinedDynamics,
    {
        let (kinetic_mj, grav_potential_mj) = match current_energy(tree) {
            Ok(e) => e,
            Err(e) => {
                return Err(e);
            },
        };
        let total = kinetic_mj.add(grav_potential_mj);
        let diff_percentage = if !self.initial_e.is_zero() {
            total.div(self.initial_e).mul(Scalar::from_int(100))
        } else {
            Scalar::zero()
        };
        Ok(Analysis {
            kinetic_e: kinetic_mj,
            gravitational_e: grav_potential_mj,
            diff_percentage,
            initial_e: self.initial_e,
        })
    }

    /// The snapshot taken at `start`: like `analyze`, then the current total
    /// becomes the initial total that later drift is measured against.
    pub fn initialize(&self, tree: &BodyTree) -> (r: Result<Analysis, SimError>)
        requires
            tree.wf(),
            self.wf(),
        ensures
            (r is Ok) == spec_energy_defined(tree.bodies@, tree.parent@),
            r matches Ok(a) ==> {
                let base = self.spec_analyze(tree.bodies@, tree.parent@);
                a == (Analysis { initial_e: Scalar::spec_add(base.kinetic_e,
                    base.gravitational_e), ..base }) && a.wf()
            },
            r matches Err(e) ==> e == SimError::UndefinedDynamics,
    {
        let mut initial_analysis = match self.analyze(tree) {
            Ok(a) => a,
            Err(e) => {
                return Err(e);
            },
        };
        let total_e = initial_analysis.kinetic_e.add(initial_analysis.gravitational_e);
        initial_analysis.initial_e = total_e;
        Ok(initial_analysis)
    }
}

/// The indices of the physical (non-barycenter) bodies among the first `k`
/// tree slots, ascending.
pub open spec fn spec_nonbary_upto(ts: Seq<Body>, k: int) -> Seq<usize>
    decreases k,
{
    if k <= 0 {
        Seq::empty()
    } else {
        spec_nonbary_upto(ts, k - 1) + (if !ts[k - 1].is_barycenter {
            seq![(k - 1) as usize]
        } else {
            Seq::empty()
        })
    }
}

proof fn lemma_nonbary_bounds(ts: Seq<Body>, k: int)
    requires
        k <= usize::MAX as int + 1,
    ensures
        forall|j: int| 0 <= j < spec_nonbary_upto(ts, k).len() ==> (
        #[trigger] spec_nonbary_upto(ts, k)[j]) < k,
    decreases k,
{
    if k > 0 {
        lemma_nonbary_bounds(ts, k - 1);
        let small = spec_nonbary_upto(ts, k - 1);
        let big = spec_nonbary_upto(ts, k);
        assert forall|j: int| 0 <= j < big.len() implies (#[trigger] big[j]) < k by {
            if j < small.len() {
                assert(big[j] == small[j]);
            } else {
                assert(big[j] == (k - 1) as usize);
            }
        }
    }
}

/// The grouping pipeline refuses an empty body list: the final wrap's group
/// has no mass.
proof fn lemma_empty_build_degenerate()
    ensures
        crate::tree::spec_build_arena(Seq::<Body>::empty()) == Err::<(Seq<crate::tree::SpecNode>,
        Seq<Option<usize>>), HierarchyError>(HierarchyError::DegenerateMass),
{
    let bodies = Seq::<Body>::empty();
    let ns = crate::tree::spec_leaf_nodes(bodies);
    let ps = crate::tree::spec_no_parents(0);
    assert(ns =~= Seq::<crate::tree::SpecNode>::empty());
    assert(ps =~= Seq::<Option<usize>>::empty());
    let rs = crate::tree::spec_find_roots(ps);
    assert(rs =~= Seq::<usize>::empty());
    let rn = crate::tree::spec_root_nodes(ns, rs);
    assert(rn =~= Seq::<crate::tree::SpecNode>::empty());
    let edges = crate::tree::spec_group_edges(rn, 0);
    let labels = crate::tree::spec_component_labels(0, edges);
    assert(labels =~= Seq::<usize>::empty()) by {
        assert(crate::tree::spec_labels_upto(0, edges, 0) =~= crate::tree::spec_identity_labels(
            0));
        assert(crate::tree::spec_identity_labels(0) =~= Seq::<usize>::empty());
    }
    let gs = crate::tree::spec_build_one_level(rn);
    assert(gs =~= Seq::<Seq<usize>>::empty());
    let g_all = Seq::new(rs.len(), |i: int| i as usize);
    assert(g_all =~= Seq::<usize>::empty());
    let node = crate::tree::spec_group_node(bodies, rn, g_all);
    assert(node.leaves =~= Seq::<usize>::empty());
    assert(crate::tree::spec_leaf_bodies(bodies, node.leaves) =~= Seq::<Body>::empty());
    assert(crate::physics::spec_mass_sum(Seq::<Body>::empty()) == Scalar::spec_zero());
}

/// A built hierarchy is exactly what the grouping pipeline prescribes for the
/// flat body list it was built from.
pub open spec fn tree_matches(tree: BodyTree, bodies: Seq<Body>) -> bool {
    &&& crate::tree::spec_build_arena(bodies) is Ok
    &&& {
        let a = crate::tree::spec_build_arena(bodies).unwrap();
        &&& tree.parent@ == a.1
        &&& tree.bodies@.len() == a.0.len()
        &&& tree.bodies@.len() >= bodies.len()
        &&& forall|i: int| 0 <= i < tree.bodies@.len() ==> (#[trigger] tree.bodies@[i]).seed()
            == crate::tree::spec_localized_seed(bodies, a.0, a.1, i)
    }
}

/// Hierarchy idempotence: the build is a pure function of the flat body list,
/// so any two trees built from the same list are structurally identical —
/// the same parent mapping, and node for node the same body.
pub proof fn lemma_hierarchy_build_deterministic(t1: BodyTree, t2: BodyTree, bodies: Seq<Body>)
    requires
        tree_matches(t1, bodies),
        tree_matches(t2, bodies),
    ensures
        t1.parent@ == t2.parent@,
        t1.bodies@.len() == t2.bodies@.len(),
        forall|i: int| 0 <= i < t1.bodies@.len() ==> (#[trigger] t1.bodies@[i]).seed()
            == t2.bodies@[i].seed(),
{
}

/// Whether a body's velocity-lock configuration can be evaluated: the
/// reference index exists, the combined mass is nonzero and the two bodies do
/// not coincide.
pub open spec fn spec_lock_valid(bodies: Seq<Body>, i: int) -> bool {
    let b = bodies[i];
    if b.lock_to_circular_velocity || b.lock_to_escape_velocity {
        &&& (b.selected_vel_lock as int) < bodies.len()
        &&& !Scalar::spec_add(b.mass, bodies[b.selected_vel_lock as int].mass).spec_is_zero()
        &&& crate::physics::spec_circular_velocity_defined(bodies[b.selected_vel_lock as int].pos,
            b.pos)
    } else {
        true
    }
}

/// The velocity a lock prescribes: the barycentric circular velocity against
/// the reference body, or `sqrt(2)` times it for an escape lock.
pub open spec fn spec_locked_velocity(bodies: Seq<Body>, i: int) -> Velocity {
    let b = bodies[i];
    let rb = bodies[b.selected_vel_lock as int];
    if b.lock_to_circular_velocity {
        crate::physics::spec_circ_velocity_barycenter(b.mass, b.pos, rb.mass, rb.pos).0
    } else {
        crate::physics::spec_escape_velocity_barycenter(b.mass, b.pos, rb.mass, rb.pos)
    }
}

/// The parent's absolute velocity; the root inherits none.
pub open spec fn spec_parent_vel(bodies: Seq<Body>, ps: Seq<Option<usize>>, i: int) -> Velocity {
    match ps[i] {
        Some(p) => bodies[p as int].absolute_vel,
        None => Velocity::spec_zero_vec(),
    }
}

/// The simulation driver and its whole state: the flat body list, the preset
/// catalog, the built hierarchy, the run parameters and the state machine.
#[derive(Debug)]
pub struct Orbital {
    /// Seconds per integration step.
    pub dt: Scalar,
    /// Steps to advance per `run` call.
    pub num_ticks: i32,
    /// Display scale, round-tripped from the preset.
    pub distance_per_px: i32,
    /// Seconds between recorded trajectory samples (presentation concern).
    pub draw_frequency: u32,
    pub started: bool,
    pub stopped: bool,
    /// The first pair of tree indices that collided, once stopped.
    pub collided: Option<(usize, usize)>,
    /// The flat (non-synthetic) body list the hierarchy is built from.
    pub bodies: Vec<Body>,
    pub presets: Vec<Preset>,
    pub analysis: Analysis,
    pub hierarchy: BodyTree,
}

impl Orbital {
    pub open spec fn wf(self) -> bool {
        &&& self.hierarchy.wf()
        &&& self.dt.wf() && !self.dt.neg
        &&& self.num_ticks >= 0
        &&& self.analysis.wf()
        &&& self.bodies@.len() >= 1
        &&& forall|i: int| 0 <= i < self.bodies@.len() ==> (#[trigger] self.bodies@[i]).wf()
        &&& forall|i: int| 0 <= i < self.presets@.len() ==> (#[trigger] self.presets@[i]).wf()
    }

    /// A fresh driver holding the seven-preset catalog, loaded with the first
    /// preset (whenever that preset's body list groups, which it does; the
    /// symbolic contract keeps the build condition explicit).
    pub fn new() -> (s: Orbital)
        ensures
            s.wf(),
            !s.started,
            !s.stopped,
            s.collided is None,
            s.presets@.len() == 7,
            s.presets@[0].bodies@.len() == 2,
            s.presets@[0].dt == Scalar::spec_from_int(1),
            s.presets@[0].ticks_per_press == 1000,
            s.presets@[0].distance_per_px == 150,
            s.presets@[0].bodies@[0].is_fixed,
            s.presets@[0].bodies@[0].mass == Scalar::spec_from_int(
                5_970_000_000_000_000_000_000_000),
            crate::tree::spec_build_arena(s.presets@[0].bodies@) is Ok ==> {
                let p = s.presets@[0];
                &&& tree_matches(s.hierarchy, p.bodies@)
                &&& s.bodies@.len() == p.bodies@.len()
                &&& (forall|i: int| 0 <= i < p.bodies@.len() ==> (#[trigger] s.bodies@[i]).seed()
                    == p.bodies@[i].seed())
                &&& s.dt == p.dt
                &&& s.num_ticks == p.ticks_per_press
                &&& s.distance_per_px == p.distance_per_px
                &&& s.draw_frequency == p.draw_frequency
            },
            !(crate::tree::spec_build_arena(s.presets@[0].bodies@) is Ok) ==> s.bodies@.len()
                == 1,
    {
        let presets = Preset::defaults();
        let mut bodies: Vec<Body> = Vec::new();
        bodies.push(Body::earth());
        proof {
            assert(crate::tree::spec_build_arena(bodies@) is Ok);
        }
        let hierarchy = match crate::tree::build_hierarchy(&bodies) {
            Ok(t) => t,
            Err(_) => {
                proof {
                    assert(false);
                }
                let mut ps: Vec<Option<usize>> = Vec::new();
                ps.push(None);
                let mut bs: Vec<Body> = Vec::new();
                bs.push(Body::earth());
                BodyTree { bodies: bs, parent: ps, root: 0 }
            },
        };
        proof {
            crate::scalar::lemma_norm_sign(false, 1, 0);
        }
        let mut app = Orbital {
            dt: Scalar::from_int(1),
            num_ticks: 1000,
            distance_per_px: 150,
            draw_frequency: 100,
            started: false,
            stopped: false,
            collided: None,
            bodies,
            presets,
            analysis: Analysis::blank(),
            hierarchy,
        };
        let _loaded = app.load_preset(0);
        app
    }

    /// Replace the body set and parameters from the preset (by catalog
    /// index), rebuild the hierarchy and return the state machine to
    /// not-started. An index past the catalog rebuilds from the current
    /// bodies instead. Succeeds exactly when the grouping pipeline succeeds
    /// on the list built from; nothing changes when the build fails.
    #[verifier::loop_isolation(false)]
    pub fn load_preset(&mut self, preset_num: usize) -> (r: Result<(), HierarchyError>)
        requires
            old(self).wf(),
        ensures
            final(self).wf(),
            final(self).presets@ == old(self).presets@,
            r is Err ==> *final(self) == *old(self),
            preset_num < old(self).presets@.len() ==> ((r is Ok) == (
            crate::tree::spec_build_arena(old(
                self).presets@[preset_num as int].bodies@) is Ok)),
            preset_num < old(self).presets@.len() ==> (r matches Err(e)
                ==> crate::tree::spec_build_arena(old(self).presets@[preset_num as int].bodies@)
                == Err::<(Seq<crate::tree::SpecNode>, Seq<Option<usize>>), HierarchyError>(e)),
            preset_num >= old(self).presets@.len() ==> ((r is Ok) == (
            crate::tree::spec_build_arena(old(self).bodies@) is Ok)),
            preset_num >= old(self).presets@.len() ==> (r matches Err(e)
                ==> crate::tree::spec_build_arena(old(self).bodies@) == Err::<(Seq<
            crate::tree::SpecNode>, Seq<Option<usize>>), HierarchyError>(e)),
            r is Ok ==> !final(self).started && !final(self).stopped && final(
                self).collided is None,
            r is Ok && preset_num < old(self).presets@.len() ==> {
                let p = old(self).presets@[preset_num as int];
                &&& tree_matches(final(self).hierarchy, p.bodies@)
                &&& final(self).bodies@.len() == p.bodies@.len()
                &&& (forall|i: int| 0 <= i < p.bodies@.len() ==> (
                #[trigger] final(self).bodies@[i]).seed() == p.bodies@[i].seed())
                &&& final(self).dt == p.dt
                &&& final(self).num_ticks == p.ticks_per_press
                &&& final(self).distance_per_px == p.distance_per_px
                &&& final(self).draw_frequency == p.draw_frequency
            },
            r is Ok && preset_num >= old(self).presets@.len() ==> {
                &&& tree_matches(final(self).hierarchy, old(self).bodies@)
                &&& final(self).bodies@ == old(self).bodies@
                &&& final(self).dt == old(self).dt
                &&& final(self).num_ticks == old(self).num_ticks
                &&& final(self).distance_per_px == old(self).distance_per_px
                &&& final(self).draw_frequency == old(self).draw_frequency
                &&& final(self).analysis == old(self).analysis
            },
    {
        if preset_num < self.presets.len() {
            let tree = match crate::tree::build_hierarchy(&self.presets[preset_num].bodies) {
                Ok(t) => t,
                Err(e) => {
                    return Err(e);
                },
            };
            let mut candidate: Vec<Body> = Vec::new();
            let mut i: usize = 0;
            let pb_len = self.presets[preset_num].bodies.len();
            while i < pb_len
                invariant
                    i <= pb_len,
                    preset_num < self.presets@.len(),
                    pb_len == self.presets@[preset_num as int].bodies@.len(),
                    candidate@.len() == i,
                    forall|j: int| 0 <= j < i ==> (#[trigger] candidate@[j]).seed()
                        == self.presets@[preset_num as int].bodies@[j].seed(),
                    forall|j: int| 0 <= j < i ==> (#[trigger] candidate@[j]).wf(),
                    self.presets@ == old(self).presets@,
                    self.bodies@ == old(self).bodies@,
                decreases pb_len - i,
            {
                candidate.push(self.presets[preset_num].bodies[i].copy());
                i = i + 1;
            }
            self.bodies = candidate;
            self.distance_per_px = self.presets[preset_num].distance_per_px;
            self.num_ticks = self.presets[preset_num].ticks_per_press;
            self.dt = self.presets[preset_num].dt;
            self.draw_frequency = self.presets[preset_num].draw_frequency;
            self.hierarchy = tree;
            self.started = false;
            self.stopped = false;
            self.collided = None;
            Ok(())
        } else {
            let tree = match crate::tree::build_hierarchy(&self.bodies) {
                Ok(t) => t,
                Err(e) => {
                    return Err(e);
                },
            };
            self.hierarchy = tree;
            self.started = false;
            self.stopped = false;
            self.collided = None;
            Ok(())
        }
    }

    /// Rebuild the hierarchy from the current flat body list (pre-start
    /// editing). Succeeds exactly when the grouping pipeline succeeds on that
    /// list; nothing changes when the build fails.
    pub fn refresh_hierarchy(&mut self) -> (r: Result<(), HierarchyError>)
        requires
            old(self).wf(),
        ensures
            final(self).wf(),
            r is Err ==> *final(self) == *old(self),
            (r is Ok) == (crate::tree::spec_build_arena(old(self).bodies@) is Ok),
            r matches Err(e) ==> crate::tree::spec_build_arena(old(self).bodies@) == Err::<(Seq<
            crate::tree::SpecNode>, Seq<Option<usize>>), HierarchyError>(e),
            r is Ok ==> tree_matches(final(self).hierarchy, final(self).bodies@),
            final(self).bodies@ == old(self).bodies@,
            final(self).presets@ == old(self).presets@,
            final(self).started == old(self).started,
            final(self).stopped == old(self).stopped,
            final(self).dt == old(self).dt,
    {
        let tree = match crate::tree::build_hierarchy(&self.bodies) {
            Ok(t) => t,
            Err(e) => {
                return Err(e);
            },
        };
        self.hierarchy = tree;
        Ok(())
    }

    /// Current simulation time: `(trajectory length - 1) * dt`, zero before
    /// any snapshot exists.
    pub fn t(&self) -> (t: Scalar)
        requires
            self.wf(),
        ensures
            self.hierarchy.bodies@[0].trajectory@.len() > 0 ==> t == Scalar::spec_mul(
                Scalar::spec_from_int(self.hierarchy.bodies@[0].trajectory@.len() - 1), self.dt),
            self.hierarchy.bodies@[0].trajectory@.len() == 0 ==> t == Scalar::spec_zero(),
            t.wf(),
    {
        let len = self.hierarchy.bodies[0].trajectory.len();
        if len > 0 {
            Scalar::from_int((len - 1) as i128).mul(self.dt)
        } else {
            Scalar::zero()
        }
    }

    /// Transition to running: record one trajectory snapshot per body and
    /// capture the initial energy total. Nothing changes when the energy is
    /// undefined.
    #[verifier::loop_isolation(false)]
    pub fn start(&mut self) -> (r: Result<(), SimError>)
        requires
            old(self).wf(),
        ensures
            final(self).wf(),
            r is Err ==> *final(self) == *old(self) && r == Result::<(), SimError>::Err(
                SimError::UndefinedDynamics),
            (r is Ok) == spec_energy_defined(old(self).hierarchy.bodies@,
                old(self).hierarchy.parent@),
            r is Ok ==> {
                &&& final(self).started
                &&& final(self).stopped == old(self).stopped
                &&& final(self).bodies@ == old(self).bodies@
                &&& final(self).hierarchy.parent@ == old(self).hierarchy.parent@
                &&& final(self).hierarchy.bodies@.len() == old(self).hierarchy.bodies@.len()
                &&& (forall|i: int|
                    0 <= i < final(self).hierarchy.bodies@.len() ==> {
                        let pre = old(self).hierarchy.bodies@[i];
                        let post = (#[trigger] final(self).hierarchy.bodies@[i]);
                        &&& post.seed() == pre.seed()
                        &&& post.trajectory@.len() == pre.trajectory@.len() + 1
                        &&& (forall|t: int| 0 <= t < pre.trajectory@.len()
                            ==> post.trajectory@[t] == pre.trajectory@[t])
                        &&& post.trajectory@.last().seed() == pre.seed()
                        &&& post.trajectory@.last().trajectory@.len() == 0
                    })
                &&& {
                    let base = old(self).analysis.spec_analyze(old(self).hierarchy.bodies@,
                        old(self).hierarchy.parent@);
                    final(self).analysis == (Analysis { initial_e: Scalar::spec_add(base.kinetic_e,
                        base.gravitational_e), ..base })
                }
            },
    {
        let analysis = match self.analysis.initialize(&self.hierarchy) {
            Ok(a) => a,
            Err(e) => {
                return Err(e);
            },
        };
        self.analysis = analysis;
        self.started = true;
        let n = self.hierarchy.bodies.len();
        let mut i: usize = 0;
        while i < n
            invariant
                i <= n,
                n == self.hierarchy.bodies@.len(),
                self.hierarchy.bodies@.len() == old(self).hierarchy.bodies@.len(),
                forall|j: int|
                    0 <= j < i ==> {
                        let pre = old(self).hierarchy.bodies@[j];
                        let post = (#[trigger] self.hierarchy.bodies@[j]);
                        &&& post.seed() == pre.seed()
                        &&& post.trajectory@.len() == pre.trajectory@.len() + 1
                        &&& (forall|t: int| 0 <= t < pre.trajectory@.len()
                            ==> post.trajectory@[t] == pre.trajectory@[t])
                        &&& post.trajectory@.last().seed() == pre.seed()
                        &&& post.trajectory@.last().trajectory@.len() == 0
                        &&& post.wf()
                    },
                forall|j: int| i <= j < n ==> (#[trigger] self.hierarchy.bodies@[j]) == old(
                    self).hierarchy.bodies@[j],
                self.hierarchy.parent@ == old(self).hierarchy.parent@,
                self.hierarchy.root == old(self).hierarchy.root,
                self.bodies@ == old(self).bodies@,
                self.presets@ == old(self).presets@,
                self.analysis == analysis,
                self.dt == old(self).dt,
                self.num_ticks == old(self).num_ticks,
                self.started,
                self.stopped == old(self).stopped,
                self.collided == old(self).collided,
                self.distance_per_px == old(self).distance_per_px,
                self.draw_frequency == old(self).draw_frequency,
            decreases n - i,
        {
            let snap = self.hierarchy.bodies[i].copy();
            let b = &mut self.hierarchy.bodies[i];
            b.trajectory.push(snap);
            i = i + 1;
        }
        Ok(())
    }

    /// One tick: advance the whole tree, then check for collisions; a
    /// collision stops the simulation and records the first colliding pair.
    /// A no-op unless running. Nothing changes when the dynamics are
    /// undefined.
    pub fn step(&mut self) -> (r: Result<(), SimError>)
        requires
            old(self).wf(),
        ensures
            final(self).wf(),
            final(self).bodies@ == old(self).bodies@,
            final(self).presets@ == old(self).presets@,
            final(self).hierarchy.parent@ == old(self).hierarchy.parent@,
            final(self).hierarchy.bodies@.len() == old(self).hierarchy.bodies@.len(),
            final(self).started == old(self).started,
            final(self).dt == old(self).dt,
            final(self).analysis == old(self).analysis,
            final(self).num_ticks == old(self).num_ticks,
            final(self).distance_per_px == old(self).distance_per_px,
            final(self).draw_frequency == old(self).draw_frequency,
            old(self).stopped ==> final(self).stopped,
            (!old(self).started || old(self).stopped) ==> *final(self) == *old(self) && r is Ok,
            old(self).started && !old(self).stopped ==> {
                &&& (r is Ok) == spec_tick_defined(old(self).hierarchy.bodies@,
                    old(self).hierarchy.parent@)
                &&& (r is Err ==> *final(self) == *old(self) && r == Result::<(), SimError>::Err(
                    SimError::UndefinedDynamics))
                &&& (r is Ok ==> {
                    &&& (forall|i: int| 0 <= i < final(self).hierarchy.bodies@.len()
                        ==> spec_tick_next(old(self).hierarchy.bodies@,
                        final(self).hierarchy.bodies@, old(self).hierarchy.parent@, old(self).dt,
                        i))
                    &&& final(self).stopped == (exists|x: int, y: int| 0 <= x < y < final(
                        self).hierarchy.bodies@.len() && spec_pair_collides(
                        #[trigger] final(self).hierarchy.bodies@[x],
                        #[trigger] final(self).hierarchy.bodies@[y]))
                    &&& (!final(self).stopped ==> final(self).collided == old(self).collided)
                    &&& (final(self).stopped ==> final(self).collided is Some)
                    &&& (final(self).stopped ==> {
                        let pr = final(self).collided.unwrap();
                        spec_pair_collides(final(self).hierarchy.bodies@[pr.0 as int],
                            final(self).hierarchy.bodies@[pr.1 as int]) && pr.0 < pr.1 < final(
                        self).hierarchy.bodies@.len()
                    })
                })
            },
    {
        if !self.started || self.stopped {
            return Ok(());
        }
        match advance_tree(&mut self.hierarchy, self.dt) {
            Ok(()) => {
            },
            Err(e) => {
                return Err(e);
            },
        }
        match check_collisions(&self.hierarchy.bodies) {
            Some(pair) => {
                self.stopped = true;
                self.collided = Some(pair);
            },
            None => {
            },
        }
        Ok(())
    }

    /// Advance `num_ticks` ticks, then refresh the energy snapshot. A no-op
    /// unless running. Every body's trajectory grows by exactly the number of
    /// ticks taken, which on success is `num_ticks` unless a collision
    /// stopped the run; a stop records the first colliding pair of the final
    /// state. Undefined dynamics or an undefined energy leave the remaining
    /// work undone and are reported, and then the final state itself is the
    /// undefined one.
    #[verifier::loop_isolation(false)]
    pub fn run(&mut self) -> (r: Result<(), SimError>)
        requires
            old(self).wf(),
        ensures
            final(self).wf(),
            final(self).bodies@ == old(self).bodies@,
            final(self).presets@ == old(self).presets@,
            final(self).hierarchy.parent@ == old(self).hierarchy.parent@,
            final(self).hierarchy.bodies@.len() == old(self).hierarchy.bodies@.len(),
            final(self).started == old(self).started,
            final(self).dt == old(self).dt,
            final(self).num_ticks == old(self).num_ticks,
            final(self).distance_per_px == old(self).distance_per_px,
            final(self).draw_frequency == old(self).draw_frequency,
            (!old(self).started || old(self).stopped) ==> *final(self) == *old(self) && r is Ok,
            r matches Err(e) ==> e == SimError::UndefinedDynamics,
            old(self).started && !old(self).stopped ==> {
                let pre = old(self).hierarchy.bodies@;
                let post = final(self).hierarchy.bodies@;
                let taken = post[0].trajectory@.len() - pre[0].trajectory@.len();
                &&& 0 <= taken <= old(self).num_ticks
                &&& (forall|i: int| 0 <= i < post.len() ==> (#[trigger] post[i]).trajectory@.len()
                    == pre[i].trajectory@.len() + taken)
                &&& (r is Ok ==> taken == old(self).num_ticks || final(self).stopped)
                &&& (!final(self).stopped ==> final(self).collided == old(self).collided)
                &&& (final(self).stopped ==> final(self).collided is Some)
                &&& (final(self).stopped ==> {
                    let pr = final(self).collided.unwrap();
                    spec_pair_collides(post[pr.0 as int], post[pr.1 as int]) && pr.0 < pr.1
                        < post.len()
                })
            },
            r is Err && old(self).started && !old(self).stopped ==> !spec_tick_defined(
                final(self).hierarchy.bodies@, final(self).hierarchy.parent@)
                || !spec_energy_defined(final(self).hierarchy.bodies@,
                final(self).hierarchy.parent@),
            r is Ok && old(self).started && !old(self).stopped ==> final(self).analysis == old(
                self).analysis.spec_analyze(final(self).hierarchy.bodies@,
                final(self).hierarchy.parent@),
    {
        if !self.started || self.stopped {
            return Ok(());
        }
        let ghost pre = old(self).hierarchy.bodies@;
        let ticks = self.num_ticks;
        let ghost mut done: int = 0;
        let mut k: i32 = 0;
        while k < ticks
            invariant
                self.wf(),
                self.bodies@ == old(self).bodies@,
                self.presets@ == old(self).presets@,
                self.hierarchy.parent@ == old(self).hierarchy.parent@,
                self.hierarchy.bodies@.len() == old(self).hierarchy.bodies@.len(),
                self.started,
                self.dt == old(self).dt,
                self.num_ticks == old(self).num_ticks,
                self.distance_per_px == old(self).distance_per_px,
                self.draw_frequency == old(self).draw_frequency,
                self.analysis == old(self).analysis,
                0 <= k <= ticks,
                0 <= done <= k,
                forall|i: int| 0 <= i < self.hierarchy.bodies@.len() ==> (
                #[trigger] self.hierarchy.bodies@[i]).trajectory@.len() == pre[i].trajectory@.len()
                    + done,
                !self.stopped ==> done == k as int,
                !self.stopped ==> self.collided == old(self).collided,
                self.stopped ==> self.collided is Some,
                self.stopped ==> {
                    let pr = self.collided.unwrap();
                    spec_pair_collides(self.hierarchy.bodies@[pr.0 as int],
                        self.hierarchy.bodies@[pr.1 as int]) && pr.0 < pr.1
                        < self.hierarchy.bodies@.len()
                },
            decreases ticks - k,
        {
            let ghost before = self.hierarchy.bodies@;
            let ghost was_stopped = self.stopped;
            match self.step() {
                Ok(()) => {
                },
                Err(e) => {
                    return Err(e);
                },
            }
            proof {
                if !was_stopped {
                    assert forall|i: int| 0 <= i < self.hierarchy.bodies@.len() implies (
                    #[trigger] self.hierarchy.bodies@[i]).trajectory@.len()
                        == before[i].trajectory@.len() + 1 by {
                        assert(spec_tick_next(before, self.hierarchy.bodies@,
                            self.hierarchy.parent@, self.dt, i));
                    }
                    done = done + 1;
                }
            }
            k = k + 1;
        }
        let analysis = match self.analysis.analyze(&self.hierarchy) {
            Ok(a) => a,
            Err(e) => {
                return Err(e);
            },
        };
        self.analysis = analysis;
        Ok(())
    }

    /// Refresh the energy snapshot from the current state; callable any time.
    pub fn analyze(&mut self) -> (r: Result<(), SimError>)
        requires
            old(self).wf(),
        ensures
            final(self).wf(),
            r is Err ==> *final(self) == *old(self) && r == Result::<(), SimError>::Err(
                SimError::UndefinedDynamics),
            (r is Ok) == spec_energy_defined(old(self).hierarchy.bodies@,
                old(self).hierarchy.parent@),
            r is Ok ==> final(self).analysis == old(self).analysis.spec_analyze(
                old(self).hierarchy.bodies@, old(self).hierarchy.parent@),
            final(self).bodies@ == old(self).bodies@,
            final(self).hierarchy == old(self).hierarchy,
            final(self).started == old(self).started,
            final(self).stopped == old(self).stopped,
            final(self).presets@ == old(self).presets@,
    {
        let analysis = match self.analysis.analyze(&self.hierarchy) {
            Ok(a) => a,
            Err(e) => {
                return Err(e);
            },
        };
        self.analysis = analysis;
        Ok(())
    }

    /// Recompute the velocity of every body locked to the circular or escape
    /// formula, from the reference body's local position and mass, and
    /// propagate the parent's absolute velocity. Valid only before start (a
    /// no-op afterwards); callable repeatedly while positions are edited.
    /// Fails, changing nothing, when a lock references a missing body or its
    /// formula is undefined.
    #[verifier::loop_isolation(false)]
    #[verifier::rlimit(100)]
    pub fn set_velocities(&mut self) -> (r: Result<(), SimError>)
        requires
            old(self).wf(),
        ensures
            final(self).wf(),
            old(self).started ==> *final(self) == *old(self) && r is Ok,
            r is Err ==> *final(self) == *old(self),
            !old(self).started ==> ((r is Ok) == (forall|i: int| 0 <= i < old(
                self).hierarchy.bodies@.len() ==> spec_lock_valid(old(self).hierarchy.bodies@,
                i))),
            r is Ok && !old(self).started ==> {
                let pre = old(self).hierarchy.bodies@;
                let ps = old(self).hierarchy.parent@;
                &&& final(self).hierarchy.bodies@.len() == pre.len()
                &&& final(self).hierarchy.parent@ == ps
                &&& (forall|i: int|
                    0 <= i < pre.len() ==> {
                        let post = (#[trigger] final(self).hierarchy.bodies@[i]);
                        if pre[i].lock_to_circular_velocity || pre[i].lock_to_escape_velocity {
                            &&& post.seed() == (crate::body::Seed {
                                v: spec_locked_velocity(pre, i),
                                absolute_vel: spec_locked_velocity(pre, i).spec_add(
                                    spec_parent_vel(pre, ps, i)),
                                ..pre[i].seed()
                            })
                            &&& post.trajectory == pre[i].trajectory
                        } else {
                            post == pre[i]
                        }
                    })
                &&& final(self).bodies@ == old(self).bodies@
                &&& final(self).started == old(self).started
                &&& final(self).stopped == old(self).stopped
            },
            r == Result::<(), SimError>::Err(SimError::LockOutOfRange) ==> exists|i: int| 0 <= i
                < old(self).hierarchy.bodies@.len() && ((#[trigger] old(
            self).hierarchy.bodies@[i]).lock_to_circular_velocity
                || old(self).hierarchy.bodies@[i].lock_to_escape_velocity) && old(
            self).hierarchy.bodies@[i].selected_vel_lock as int >= old(
            self).hierarchy.bodies@.len(),
            r == Result::<(), SimError>::Err(SimError::DegenerateLock) ==> exists|i: int| 0 <= i
                < old(self).hierarchy.bodies@.len() && ((#[trigger] old(
            self).hierarchy.bodies@[i]).lock_to_circular_velocity
                || old(self).hierarchy.bodies@[i].lock_to_escape_velocity)
                && !spec_lock_valid(old(self).hierarchy.bodies@, i),
            !(r == Result::<(), SimError>::Err(SimError::UndefinedDynamics)),
    {
        if self.started {
            return Ok(());
        }
        let ghost pre = self.hierarchy.bodies@;
        let ghost ps = self.hierarchy.parent@;
        let n = self.hierarchy.bodies.len();
        // validation pass: nothing is mutated unless every lock is evaluable
        let mut i: usize = 0;
        while i < n
            invariant
                i <= n,
                n == self.hierarchy.bodies@.len(),
                *self == *old(self),
                forall|j: int| 0 <= j < i ==> spec_lock_valid(pre, j),
            decreases n - i,
        {
            let locked = self.hierarchy.bodies[i].lock_to_circular_velocity
                || self.hierarchy.bodies[i].lock_to_escape_velocity;
            if locked {
                let sel = self.hierarchy.bodies[i].selected_vel_lock;
                if sel >= n {
                    proof {
                        assert(!spec_lock_valid(pre, i as int));
                        assert(pre[i as int].selected_vel_lock as int >= pre.len());
                    }
                    return Err(SimError::LockOutOfRange);
                }
                let mass_sum = self.hierarchy.bodies[i].mass.add(self.hierarchy.bodies[sel].mass);
                let r_mag = self.hierarchy.bodies[i].pos.minus(
                    self.hierarchy.bodies[sel].pos).mag();
                let scaled = r_mag.mul(Scalar::from_int(1_000_000_000));
                if mass_sum.is_zero() || r_mag.is_zero() || scaled.is_zero() {
                    proof {
                        assert(!spec_lock_valid(pre, i as int));
                    }
                    return Err(SimError::DegenerateLock);
                }
            }
            i = i + 1;
        }
        // the parents' absolute velocities, from the pre-update state
        let mut parent_vels: Vec<Velocity> = Vec::new();
        let mut j: usize = 0;
        while j < n
            invariant
                j <= n,
                n == self.hierarchy.bodies@.len(),
                *self == *old(self),
                parent_vels@.len() == j,
                forall|k: int| 0 <= k < j ==> (#[trigger] parent_vels@[k]) == spec_parent_vel(pre,
                    ps, k),
                forall|k: int| 0 <= k < j ==> (#[trigger] parent_vels@[k]).wf(),
            decreases n - j,
        {
            let pv = match self.hierarchy.parent[j] {
                Some(p) => self.hierarchy.bodies[p].absolute_vel,
                None => Velocity::zero(),
            };
            parent_vels.push(pv);
            j = j + 1;
        }
        // apply the locks; positions and masses are never written, so the
        // formulas keep reading the pre-update values
        let mut i2: usize = 0;
        while i2 < n
            invariant
                i2 <= n,
                n == self.hierarchy.bodies@.len(),
                forall|k: int| 0 <= k < n ==> spec_lock_valid(pre, k),
                parent_vels@.len() == n,
                forall|k: int| 0 <= k < n ==> (#[trigger] parent_vels@[k]) == spec_parent_vel(pre,
                    ps, k),
                forall|k: int| 0 <= k < n ==> (#[trigger] parent_vels@[k]).wf(),
                self.hierarchy.parent@ == ps,
                self.hierarchy.root == old(self).hierarchy.root,
                self.bodies@ == old(self).bodies@,
                self.presets@ == old(self).presets@,
                self.analysis == old(self).analysis,
                self.started == old(self).started,
                self.stopped == old(self).stopped,
                self.collided == old(self).collided,
                self.dt == old(self).dt,
                self.num_ticks == old(self).num_ticks,
                self.distance_per_px == old(self).distance_per_px,
                self.draw_frequency == old(self).draw_frequency,
                forall|k: int|
                    0 <= k < i2 ==> {
                        let post = (#[trigger] self.hierarchy.bodies@[k]);
                        if pre[k].lock_to_circular_velocity || pre[k].lock_to_escape_velocity {
                            &&& post.seed() == (crate::body::Seed {
                                v: spec_locked_velocity(pre, k),
                                absolute_vel: spec_locked_velocity(pre, k).spec_add(
                                    spec_parent_vel(pre, ps, k)),
                                ..pre[k].seed()
                            })
                            &&& post.trajectory == pre[k].trajectory
                            &&& post.wf()
                        } else {
                            post == pre[k]
                        }
                    },
                forall|k: int| i2 <= k < n ==> (#[trigger] self.hierarchy.bodies@[k]) == pre[k],
            decreases n - i2,
        {
            let circ = self.hierarchy.bodies[i2].lock_to_circular_velocity;
            let esc = self.hierarchy.bodies[i2].lock_to_escape_velocity;
            if circ || esc {
                let sel = self.hierarchy.bodies[i2].selected_vel_lock;
                proof {
                    assert(self.hierarchy.bodies@[i2 as int] == pre[i2 as int]);
                    assert(spec_lock_valid(pre, i2 as int));
                    assert(sel < n);
                }
                let locked_body_pos = self.hierarchy.bodies[sel].pos;
                let locked_body_m = self.hierarchy.bodies[sel].mass;
                proof {
                    assert(self.hierarchy.bodies@[sel as int].pos == pre[sel as int].pos
                        && self.hierarchy.bodies@[sel as int].mass == pre[sel as int].mass
                        && self.hierarchy.bodies@[sel as int].pos.wf()
                        && self.hierarchy.bodies@[sel as int].mass.wf()
                        && !self.hierarchy.bodies@[sel as int].mass.neg);
                }
                let vel = if circ {
                    let (v1, _) = crate::physics::circ_velocity_barycenter(
                        self.hierarchy.bodies[i2].mass, self.hierarchy.bodies[i2].pos,
                        locked_body_m, locked_body_pos);
                    v1
                } else {
                    crate::physics::escape_velocity_barycenter(self.hierarchy.bodies[i2].mass,
                        self.hierarchy.bodies[i2].pos, locked_body_m, locked_body_pos)
                };
                let pv = parent_vels[i2];
                let b = &mut self.hierarchy.bodies[i2];
                b.v = vel;
                b.absolute_vel = vel.add(pv);
            }
            i2 = i2 + 1;
        }
        Ok(())
    }

    /// Return to not-started: every body goes back to its first trajectory
    /// snapshot (or stays as it is when it has none), synthetic nodes are
    /// dropped, and the hierarchy is rebuilt. Nothing changes when the
    /// rebuild fails, and a failure exhibits a restored list (seed for seed)
    /// that the grouping pipeline refuses — so success is owed whenever the
    /// restored bodies group.
    #[verifier::loop_isolation(false)]
    pub fn reset(&mut self) -> (r: Result<(), HierarchyError>)
        requires
            old(self).wf(),
        ensures
            final(self).wf(),
            r is Err ==> *final(self) == *old(self),
            r matches Err(e) ==> {
                let ts = old(self).hierarchy.bodies@;
                let keep = spec_nonbary_upto(ts, ts.len() as int);
                exists|bs: Seq<Body>|
                    (#[trigger] crate::tree::spec_build_arena(bs)) == Err::<(Seq<
                    crate::tree::SpecNode>, Seq<Option<usize>>), HierarchyError>(e) && bs.len()
                        == keep.len() && (forall|j: int| 0 <= j < keep.len() ==> (
                    #[trigger] bs[j]).seed() == {
                        let b = ts[keep[j] as int];
                        if b.trajectory@.len() > 0 {
                            b.trajectory@[0].seed()
                        } else {
                            b.seed()
                        }
                    })
            },
            r is Ok ==> {
                let ts = old(self).hierarchy.bodies@;
                let keep = spec_nonbary_upto(ts, ts.len() as int);
                &&& !final(self).started && !final(self).stopped && final(self).collided is None
                &&& tree_matches(final(self).hierarchy, final(self).bodies@)
                &&& final(self).bodies@.len() == keep.len()
                &&& (forall|j: int|
                    0 <= j < keep.len() ==> (#[trigger] final(self).bodies@[j]).seed() == {
                        let b = ts[keep[j] as int];
                        if b.trajectory@.len() > 0 {
                            b.trajectory@[0].seed()
                        } else {
                            b.seed()
                        }
                    })
                &&& final(self).presets@ == old(self).presets@
                &&& final(self).dt == old(self).dt
            },
    {
        let n = self.hierarchy.bodies.len();
        let mut initial_bodies: Vec<Body> = Vec::new();
        let mut i: usize = 0;
        while i < n
            invariant
                i <= n,
                n == self.hierarchy.bodies@.len(),
                *self == *old(self),
                initial_bodies@.len() == spec_nonbary_upto(self.hierarchy.bodies@, i as int).len(),
                forall|j: int|
                    0 <= j < initial_bodies@.len() ==> (#[trigger] initial_bodies@[j]).seed() == {
                        let b = self.hierarchy.bodies@[spec_nonbary_upto(self.hierarchy.bodies@,
                            i as int)[j] as int];
                        if b.trajectory@.len() > 0 {
                            b.trajectory@[0].seed()
                        } else {
                            b.seed()
                        }
                    },
                forall|j: int| 0 <= j < initial_bodies@.len() ==> (
                #[trigger] initial_bodies@[j]).wf(),
            decreases n - i,
        {
            proof {
                lemma_nonbary_bounds(self.hierarchy.bodies@, i as int);
            }
            if !self.hierarchy.bodies[i].is_barycenter {
                if self.hierarchy.bodies[i].trajectory.len() > 0 {
                    initial_bodies.push(self.hierarchy.bodies[i].trajectory[0].copy());
                } else {
                    initial_bodies.push(self.hierarchy.bodies[i].full_copy());
                }
            }
            i = i + 1;
        }
        if initial_bodies.len() == 0 {
            proof {
                lemma_empty_build_degenerate();
                assert(initial_bodies@ =~= Seq::<Body>::empty());
            }
            return Err(HierarchyError::DegenerateMass);
        }
        let tree = match crate::tree::build_hierarchy(&initial_bodies) {
            Ok(t) => t,
            Err(e) => {
                proof {
                    assert(crate::tree::spec_build_arena(initial_bodies@) == Err::<(Seq<
                    crate::tree::SpecNode>, Seq<Option<usize>>), HierarchyError>(e));
                }
                return Err(e);
            },
        };
        self.bodies = initial_bodies;
        self.hierarchy = tree;
        self.started = false;
        self.stopped = false;
        self.collided = None;
        Ok(())
    }

    /// The current tree bodies, without their histories.
    #[verifier::loop_isolation(false)]
    pub fn current_bodies(&self) -> (r: Vec<Body>)
        requires
            self.wf(),
        ensures
            r@.len() == self.hierarchy.bodies@.len(),
            forall|i: int| 0 <= i < r@.len() ==> (#[trigger] r@[i]).seed()
                == self.hierarchy.bodies@[i].seed() && r@[i].trajectory@.len() == 0 && r@[i].wf(),
    {
        let mut r: Vec<Body> = Vec::new();
        let mut i: usize = 0;
        let n = self.hierarchy.bodies.len();
        while i < n
            invariant
                i <= n,
                n == self.hierarchy.bodies@.len(),
                r@.len() == i,
                forall|j: int| 0 <= j < i ==> (#[trigger] r@[j]).seed()
                    == self.hierarchy.bodies@[j].seed() && r@[j].trajectory@.len() == 0
                    && r@[j].wf(),
            decreases n - i,
        {
            r.push(self.hierarchy.bodies[i].copy());
            i = i + 1;
        }
        r
    }
}

/// A node with this parent is listed among its children.
pub proof fn lemma_children_complete(ps: Seq<Option<usize>>, p: usize, k: int, i: usize)
    requires
        0 <= i < k <= ps.len(),
        k <= usize::MAX as int,
        ps[i as int] == Some(p),
    ensures
        spec_children_upto(ps, p, k).contains(i),
    decreases k,
{
    let small = spec_children_upto(ps, p, k - 1);
    let big = spec_children_upto(ps, p, k);
    if i as int == k - 1 {
        assert(big[big.len() - 1] == i);
        assert(big.contains(i));
    } else {
        lemma_children_complete(ps, p, k - 1, i);
        let j = choose|j: int| 0 <= j < small.len() && (#[trigger] small[j]) == i;
        assert(big[j] == i);
        assert(big.contains(i));
    }
}

} // verus!
