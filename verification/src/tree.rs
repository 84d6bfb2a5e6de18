//! The hierarchy builder: clusters bodies into a rooted tree of leaves and
//! synthetic barycenter groups using a distance/mass-ratio heuristic plus
//! connected-components grouping, and localizes every node's state to its
//! parent's frame.
//!
//! The tree is an arena: nodes are stored in creation order (the leaves first,
//! then each synthetic group, the root last), and every edge points from a
//! child to a later-created parent, so the parent index always exceeds the
//! child index and the graph is acyclic by construction.
//!
//! Determinism and tie-breaks (the build is a pure function of the flat body
//! list): distances are sorted stably with ties kept in node-index order,
//! connected components are listed in order of their smallest member and each
//! component's members ascend, and group nodes are appended in that order.

use vstd::prelude::*;

verus! {

use crate::scalar::Scalar;
use crate::vector::Position;
use crate::vector::Velocity;
use crate::body::Body;

/// Why a hierarchy could not be built.
#[derive(Clone, Copy, Debug, PartialEq, Eq, Structural)]
pub enum HierarchyError {
    /// Grouping did not settle within the level cap: a malformed or
    /// pathological body configuration.
    LoopLimit,
    /// A group's total mass vanished, so its barycenter is undefined.
    DegenerateMass,
}

/// An undirected grouping edge between two current roots, by root-list index.
#[derive(Clone, Copy, Debug, PartialEq, Eq, Structural)]
pub struct Edge {
    pub source: usize,
    pub dest: usize,
}

impl Edge {
    pub fn new(source: usize, dest: usize) -> (e: Edge)
        ensures
            e == (Edge { source, dest }),
    {
        Edge { source, dest }
    }
}

/// A node of the arena while the tree is being built: the leaf indices below
/// it, and its combined state.
pub struct HNode {
    /// Indices into the flat body list of every leaf below this node, in the
    /// order the groups were assembled.
    pub leaves: Vec<usize>,
    pub is_leaf: bool,
    /// Absolute position: the body's own for a leaf, the barycenter of the
    /// leaf descendants for a group.
    pub pos: Position,
    /// Absolute velocity: the body's own or the mass-weighted mean.
    pub vel: Velocity,
    /// The body's mass for a leaf; the sum of the children's masses for a
    /// group.
    pub mass: Scalar,
}

/// The spec-level image of an arena node.
pub struct SpecNode {
    pub leaves: Seq<usize>,
    pub is_leaf: bool,
    pub pos: Position,
    pub vel: Velocity,
    pub mass: Scalar,
}

impl View for HNode {
    type V = SpecNode;

    open spec fn view(&self) -> SpecNode {
        SpecNode {
            leaves: self.leaves@,
            is_leaf: self.is_leaf,
            pos: self.pos,
            vel: self.vel,
            mass: self.mass,
        }
    }
}

impl SpecNode {
    pub open spec fn wf(self) -> bool {
        self.pos.wf() && self.vel.wf() && self.mass.wf() && !self.mass.neg
    }
}

/// The views of an arena.
pub open spec fn views_of(s: Seq<HNode>) -> Seq<SpecNode> {
    s.map_values(|n: HNode| n@)
}

/// Grouping cuts the sorted distance list where consecutive distances jump by
/// more than this factor.
pub open spec fn spec_distance_ratio_threshold() -> Scalar {
    Scalar::spec_from_int(10)
}

/// Two nodes are only grouped when the larger-to-smaller mass ratio is within
/// this factor.
pub open spec fn spec_mass_ratio_threshold() -> Scalar {
    Scalar::spec_from_int(100)
}

/// Stable insertion into a distance-sorted list: an incoming entry goes after
/// every entry at the same or a smaller distance.
pub open spec fn spec_insert_by_distance(s: Seq<(usize, Scalar)>, x: (usize, Scalar)) -> Seq<(
    usize, Scalar)>
    decreases s.len(),
{
    if s.len() == 0 {
        seq![x]
    } else if Scalar::spec_lt(x.1, s.last().1) {
        spec_insert_by_distance(s.drop_last(), x).push(s.last())
    } else {
        s.push(x)
    }
}

/// The distances from node `cur` to every other node among the first `k`,
/// sorted ascending with ties kept in node-index order.
pub open spec fn spec_sorted_distances(ns: Seq<SpecNode>, cur: int, k: int) -> Seq<(usize, Scalar)>
    decreases k,
{
    if k <= 0 {
        Seq::empty()
    } else {
        let prev = spec_sorted_distances(ns, cur, k - 1);
        if k - 1 == cur {
            prev
        } else {
            spec_insert_by_distance(prev, ((k - 1) as usize, ns[cur].pos.spec_abs_diff(
                ns[k - 1].pos)))
        }
    }
}

/// Whether the step from one sorted distance to the next counts as a jump: a
/// ratio above the threshold, with a zero distance followed by a nonzero one
/// counting as an unbounded ratio.
pub open spec fn spec_jump(cur: Scalar, next: Scalar) -> bool {
    if cur.spec_is_zero() {
        !next.spec_is_zero()
    } else {
        Scalar::spec_lt(spec_distance_ratio_threshold(), Scalar::spec_div(next, cur))
    }
}

/// The first position of a jump in the sorted distance list at or after `k`.
pub open spec fn spec_cut(d: Seq<(usize, Scalar)>, k: nat) -> Option<nat>
    decreases d.len() - k,
{
    if k + 1 >= d.len() {
        None
    } else if spec_jump(d[k as int].1, d[k as int + 1].1) {
        Some(k)
    } else {
        spec_cut(d, k + 1)
    }
}

/// The close-neighbor prefix of the sorted distance list: everything before
/// the first ratio jump, and nothing at all when no jump exists (deliberately
/// conservative: no giant mutual group unless jumps are found).
pub open spec fn spec_within_threshold(d: Seq<(usize, Scalar)>) -> Seq<(usize, Scalar)> {
    match spec_cut(d, 0) {
        Some(k) => d.take(k as int + 1),
        None => Seq::empty(),
    }
}

/// Whether two masses are within the grouping ratio; a vanished mass never
/// groups.
pub open spec fn spec_mass_ratio_ok(a: Scalar, b: Scalar) -> bool {
    if a.spec_is_zero() || b.spec_is_zero() {
        false
    } else {
        Scalar::spec_le(Scalar::spec_max(Scalar::spec_div(a, b), Scalar::spec_div(b, a)),
            spec_mass_ratio_threshold())
    }
}

/// The edges from `cur` to its close neighbors whose mass ratio permits
/// grouping, in neighbor order.
pub open spec fn spec_edges_for(ns: Seq<SpecNode>, cur: int, w: Seq<(usize, Scalar)>) -> Seq<Edge>
    decreases w.len(),
{
    if w.len() == 0 {
        Seq::empty()
    } else {
        let prev = spec_edges_for(ns, cur, w.drop_last());
        if spec_mass_ratio_ok(ns[cur].mass, ns[w.last().0 as int].mass) {
            prev.push(Edge { source: cur as usize, dest: w.last().0 })
        } else {
            prev
        }
    }
}

/// All grouping edges for the first `k` nodes, in node order.
pub open spec fn spec_group_edges(ns: Seq<SpecNode>, k: int) -> Seq<Edge>
    decreases k,
{
    if k <= 0 {
        Seq::empty()
    } else {
        spec_group_edges(ns, k - 1) + spec_edges_for(ns, k - 1, spec_within_threshold(
            spec_sorted_distances(ns, k - 1, ns.len() as int)))
    }
}

/// Stable insertion into a distance-sorted list.
fn insert_by_distance(v: Vec<(usize, Scalar)>, x: (usize, Scalar)) -> (r: Vec<(usize, Scalar)>)
    requires
        x.1.wf(),
        forall|i: int| 0 <= i < v@.len() ==> (#[trigger] v@[i]).1.wf(),
    ensures
        r@ == spec_insert_by_distance(v@, x),
        forall|i: int| 0 <= i < r@.len() ==> (#[trigger] r@[i]).1.wf(),
    decreases v@.len(),
{
    if v.len() == 0 {
        let mut r: Vec<(usize, Scalar)> = Vec::new();
        r.push(x);
        proof {
            assert(r@ =~= seq![x]);
        }
        r
    } else {
        let last = v[v.len() - 1];
        if x.1.lt(last.1) {
            let mut v2 = v;
            let popped = v2.pop().unwrap();
            let mut r = insert_by_distance(v2, x);
            r.push(popped);
            r
        } else {
            let mut v2 = v;
            v2.push(x);
            v2
        }
    }
}

/// The distances from node `current` to every other node, sorted ascending,
/// ties in node-index order.
#[verifier::loop_isolation(false)]
#[verifier::rlimit(100)]
fn sort_by_distance(current: usize, nodes: &Vec<HNode>) -> (r: Vec<(usize, Scalar)>)
    requires
        current < nodes@.len(),
        forall|i: int| 0 <= i < nodes@.len() ==> (#[trigger] nodes@[i])@.wf(),
    ensures
        r@ == spec_sorted_distances(views_of(nodes@), current as int, nodes@.len() as int),
        forall|i: int| 0 <= i < r@.len() ==> (#[trigger] r@[i]).1.wf(),
    decreases nodes@.len(),
{
    let mut r: Vec<(usize, Scalar)> = Vec::new();
    let mut i: usize = 0;
    while i < nodes.len()
        invariant
            i <= nodes@.len(),
            r@ == spec_sorted_distances(views_of(nodes@), current as int, i as int),
            forall|j: int| 0 <= j < r@.len() ==> (#[trigger] r@[j]).1.wf(),
        decreases nodes@.len() - i,
    {
        if i != current {
            let d = nodes[current].pos.abs_diff(nodes[i].pos);
            r = insert_by_distance(r, (i, d));
        }
        i = i + 1;
    }
    r
}

/// The close-neighbor prefix of a sorted distance list: everything before the
/// first ratio jump, or nothing when no jump exists.
#[verifier::loop_isolation(false)]
fn find_bodies_within_threshold(distances: &Vec<(usize, Scalar)>) -> (r: Vec<(usize, Scalar)>)
    requires
        forall|i: int| 0 <= i < distances@.len() ==> (#[trigger] distances@[i]).1.wf(),
    ensures
        r@ == spec_within_threshold(distances@),
        forall|i: int| 0 <= i < r@.len() ==> (#[trigger] r@[i]).1.wf(),
{
    let threshold = Scalar::from_int(10);
    let mut i: usize = 0;
    while i < distances.len() && i + 1 < distances.len()
        invariant
            i + 1 <= distances@.len() || distances@.len() == 0,
            spec_cut(distances@, 0) == spec_cut(distances@, i as nat),
        decreases distances@.len() - i,
    {
        let cur = distances[i];
        let next = distances[i + 1];
        let jump = if cur.1.is_zero() {
            !next.1.is_zero()
        } else {
            threshold.lt(next.1.div(cur.1))
        };
        if jump {
            let mut r: Vec<(usize, Scalar)> = Vec::new();
            let mut j: usize = 0;
            while j < i + 1
                invariant
                    j <= i + 1,
                    i + 1 <= distances@.len(),
                    r@ == distances@.take(j as int),
                decreases i + 1 - j,
            {
                proof {
                    assert(distances@.take(j as int + 1) =~= distances@.take(j as int).push(
                        distances@[j as int]));
                }
                r.push(distances[j]);
                j = j + 1;
            }
            proof {
                assert(spec_cut(distances@, i as nat) == Some(i as nat));
            }
            return r;
        }
        i = i + 1;
    }
    proof {
        if distances@.len() > 0 {
            assert(spec_cut(distances@, i as nat) is None);
        }
    }
    Vec::new()
}

/// Whether two masses are within the grouping ratio.
fn mass_ratio_ok(a: Scalar, b: Scalar) -> (r: bool)
    requires
        a.wf(),
        b.wf(),
    ensures
        r == spec_mass_ratio_ok(a, b),
{
    if a.is_zero() || b.is_zero() {
        false
    } else {
        let r1 = a.div(b);
        let r2 = b.div(a);
        r1.max_of(r2).le(Scalar::from_int(100))
    }
}

/// All grouping edges among the current roots: each node is linked to its
/// close neighbors of comparable mass.
#[verifier::loop_isolation(false)]
#[verifier::rlimit(50)]
pub fn group_bodies(nodes: &Vec<HNode>) -> (edges: Vec<Edge>)
    requires
        forall|i: int| 0 <= i < nodes@.len() ==> (#[trigger] nodes@[i])@.wf(),
    ensures
        edges@ == spec_group_edges(views_of(nodes@), nodes@.len() as int),
{
    let mut edges: Vec<Edge> = Vec::new();
    let mut cur: usize = 0;
    while cur < nodes.len()
        invariant
            cur <= nodes@.len(),
            edges@ == spec_group_edges(views_of(nodes@), cur as int),
        decreases nodes@.len() - cur,
    {
        let sorted = sort_by_distance(cur, nodes);
        let within = find_bodies_within_threshold(&sorted);
        let ghost w = within@;
        let mut k: usize = 0;
        while k < within.len()
            invariant
                k <= w.len(),
                within@ == w,
                w == spec_within_threshold(spec_sorted_distances(views_of(nodes@), cur as int,
                    nodes@.len() as int)),
                cur < nodes@.len(),
                edges@ == spec_group_edges(views_of(nodes@), cur as int) + spec_edges_for(
                    views_of(nodes@), cur as int, w.take(k as int)),
                forall|i: int| 0 <= i < w.len() ==> (#[trigger] w[i]).1.wf(),
            decreases w.len() - k,
        {
            proof {
                assert(w.take(k as int + 1).drop_last() =~= w.take(k as int));
                assert(w.take(k as int + 1).last() == w[k as int]);
            }
            let entry = within[k];
            if entry.0 < nodes.len() {
                if mass_ratio_ok(nodes[cur].mass, nodes[entry.0].mass) {
                    edges.push(Edge::new(cur, entry.0));
                }
            } else {
                proof {
                    assert(false) by {
                        lemma_sorted_distances_bounds(views_of(nodes@), cur as int,
                            nodes@.len() as int);
                        lemma_within_bounds(spec_sorted_distances(views_of(nodes@), cur as int,
                            nodes@.len() as int), nodes@.len() as int);
                    }
                }
            }
            k = k + 1;
        }
        proof {
            assert(w.take(w.len() as int) =~= w);
        }
        cur = cur + 1;
    }
    edges
}

/// Every index in a sorted distance list is a valid node index other than
/// `cur`.
pub open spec fn indices_below(d: Seq<(usize, Scalar)>, n: int) -> bool {
    forall|i: int| 0 <= i < d.len() ==> (#[trigger] d[i]).0 < n
}

proof fn lemma_insert_bounds(s: Seq<(usize, Scalar)>, x: (usize, Scalar), n: int)
    requires
        indices_below(s, n),
        x.0 < n,
    ensures
        indices_below(spec_insert_by_distance(s, x), n),
    decreases s.len(),
{
    if s.len() != 0 && Scalar::spec_lt(x.1, s.last().1) {
        lemma_insert_bounds(s.drop_last(), x, n);
    }
}

proof fn lemma_sorted_distances_bounds(ns: Seq<SpecNode>, cur: int, k: int)
    requires
        k <= ns.len(),
    ensures
        indices_below(spec_sorted_distances(ns, cur, k), ns.len() as int),
    decreases k,
{
    if k > 0 {
        lemma_sorted_distances_bounds(ns, cur, k - 1);
        if k - 1 != cur {
            lemma_insert_bounds(spec_sorted_distances(ns, cur, k - 1), ((k - 1) as usize,
                ns[cur].pos.spec_abs_diff(ns[k - 1].pos)), ns.len() as int);
        }
    }
}

proof fn lemma_within_bounds(d: Seq<(usize, Scalar)>, n: int)
    requires
        indices_below(d, n),
    ensures
        indices_below(spec_within_threshold(d), n),
{
    match spec_cut(d, 0) {
        Some(k) => {
            lemma_cut_in_range(d, 0);
        },
        None => {
        },
    }
}

/// Every node starts in its own component.
pub open spec fn spec_identity_labels(n: nat) -> Seq<usize> {
    Seq::new(n, |i: int| i as usize)
}

/// Merge the two components an edge connects: every node carrying the larger
/// label is relabeled with the smaller.
pub open spec fn spec_apply_edge(labels: Seq<usize>, e: Edge) -> Seq<usize> {
    if e.source < labels.len() && e.dest < labels.len() && labels[e.source as int]
        != labels[e.dest as int] {
        let a = labels[e.source as int];
        let b = labels[e.dest as int];
        let lo = if a < b { a } else { b };
        let hi = if a < b { b } else { a };
        labels.map_values(|l: usize| if l == hi { lo } else { l })
    } else {
        labels
    }
}

/// Component labels after the first `k` edges.
pub open spec fn spec_labels_upto(n: nat, edges: Seq<Edge>, k: int) -> Seq<usize>
    decreases k,
{
    if k <= 0 {
        spec_identity_labels(n)
    } else {
        spec_apply_edge(spec_labels_upto(n, edges, k - 1), edges[k - 1])
    }
}

/// Component labels after all edges: two nodes share a label exactly when
/// they are connected.
pub open spec fn spec_component_labels(n: nat, edges: Seq<Edge>) -> Seq<usize> {
    spec_labels_upto(n, edges, edges.len() as int)
}

/// The nodes carrying label `l` among the first `k`, ascending.
pub open spec fn spec_members_upto(labels: Seq<usize>, l: usize, k: int) -> Seq<usize>
    decreases k,
{
    if k <= 0 {
        Seq::empty()
    } else {
        spec_members_upto(labels, l, k - 1) + (if labels[k - 1] == l {
            seq![(k - 1) as usize]
        } else {
            Seq::empty()
        })
    }
}

pub open spec fn spec_members(labels: Seq<usize>, l: usize) -> Seq<usize> {
    spec_members_upto(labels, l, labels.len() as int)
}

/// Whether position `k` carries the first occurrence of its label.
pub open spec fn spec_is_first(labels: Seq<usize>, k: int) -> bool {
    forall|j: int| 0 <= j < k ==> labels[j] != labels[k]
}

/// The components, ordered by smallest member, each listing its members
/// ascending.
pub open spec fn spec_groups_upto(labels: Seq<usize>, k: int) -> Seq<Seq<usize>>
    decreases k,
{
    if k <= 0 {
        Seq::empty()
    } else {
        spec_groups_upto(labels, k - 1) + (if spec_is_first(labels, k - 1) {
            seq![spec_members(labels, labels[k - 1])]
        } else {
            Seq::empty()
        })
    }
}

pub open spec fn spec_component_groups(labels: Seq<usize>) -> Seq<Seq<usize>> {
    spec_groups_upto(labels, labels.len() as int)
}

/// One level of grouping: the connected components of the close-neighbor,
/// comparable-mass graph over the current roots.
pub open spec fn spec_build_one_level(ns: Seq<SpecNode>) -> Seq<Seq<usize>> {
    spec_component_groups(spec_component_labels(ns.len(), spec_group_edges(ns,
        ns.len() as int)))
}

pub open spec fn deep_view_of(s: Seq<Vec<usize>>) -> Seq<Seq<usize>> {
    s.map_values(|v: Vec<usize>| v@)
}

/// Component labels of the current roots under the given edges.
#[verifier::loop_isolation(false)]
fn component_labels(n: usize, edges: &Vec<Edge>) -> (labels: Vec<usize>)
    ensures
        labels@ == spec_component_labels(n as nat, edges@),
{
    let mut labels: Vec<usize> = Vec::new();
    let mut i: usize = 0;
    while i < n
        invariant
            i <= n,
            labels@ =~= spec_identity_labels(i as nat),
        decreases n - i,
    {
        labels.push(i);
        proof {
            assert(labels@ =~= spec_identity_labels(i as nat + 1));
        }
        i = i + 1;
    }
    let mut k: usize = 0;
    while k < edges.len()
        invariant
            k <= edges@.len(),
            labels@ == spec_labels_upto(n as nat, edges@, k as int),
        decreases edges@.len() - k,
    {
        let e = edges[k];
        if e.source < labels.len() && e.dest < labels.len() {
            let a = labels[e.source];
            let b = labels[e.dest];
            if a != b {
                let lo = if a < b { a } else { b };
                let hi = if a < b { b } else { a };
                let ghost pre = labels@;
                let mut t: usize = 0;
                while t < labels.len()
                    invariant
                        t <= pre.len(),
                        labels@.len() == pre.len(),
                        forall|j: int| t <= j < pre.len() ==> labels@[j] == pre[j],
                        forall|j: int| 0 <= j < t ==> labels@[j] == (if pre[j] == hi {
                            lo
                        } else {
                            pre[j]
                        }),
                    decreases pre.len() - t,
                {
                    if labels[t] == hi {
                        labels.set(t, lo);
                    }
                    t = t + 1;
                }
                proof {
                    assert(labels@ =~= pre.map_values(|l: usize| if l == hi { lo } else { l }));
                }
            }
        }
        k = k + 1;
    }
    labels
}

/// The connected components of a labeling, ordered by smallest member.
#[verifier::loop_isolation(false)]
fn components_of(labels: &Vec<usize>) -> (groups: Vec<Vec<usize>>)
    ensures
        deep_view_of(groups@) == spec_component_groups(labels@),
{
    let mut groups: Vec<Vec<usize>> = Vec::new();
    let mut k: usize = 0;
    while k < labels.len()
        invariant
            k <= labels@.len(),
            deep_view_of(groups@) == spec_groups_upto(labels@, k as int),
        decreases labels@.len() - k,
    {
        let mut first = true;
        let mut j: usize = 0;
        while j < k
            invariant
                j <= k <= labels@.len(),
                first == (forall|t: int| 0 <= t < j ==> labels@[t] != labels@[k as int]),
            decreases k - j,
        {
            if labels[j] == labels[k] {
                first = false;
            }
            j = j + 1;
        }
        if first {
            let mut g: Vec<usize> = Vec::new();
            let mut t: usize = 0;
            while t < labels.len()
                invariant
                    t <= labels@.len(),
                    k < labels@.len(),
                    g@ == spec_members_upto(labels@, labels@[k as int], t as int),
                decreases labels@.len() - t,
            {
                if labels[t] == labels[k] {
                    g.push(t);
                }
                t = t + 1;
            }
            groups.push(g);
            proof {
                assert(deep_view_of(groups@) =~= spec_groups_upto(labels@, k as int + 1));
            }
        } else {
            proof {
                assert(deep_view_of(groups@) =~= spec_groups_upto(labels@, k as int + 1));
            }
        }
        k = k + 1;
    }
    groups
}

/// One level of grouping over the current roots: connected components of the
/// close-neighbor, comparable-mass graph.
pub fn build_one_level(nodes: &Vec<HNode>) -> (groups: Vec<Vec<usize>>)
    requires
        forall|i: int| 0 <= i < nodes@.len() ==> (#[trigger] nodes@[i])@.wf(),
    ensures
        deep_view_of(groups@) == spec_build_one_level(views_of(nodes@)),
{
    let edges = group_bodies(nodes);
    let labels = component_labels(nodes.len(), &edges);
    proof {
        assert(views_of(nodes@).len() == nodes@.len());
    }
    components_of(&labels)
}

/// The bodies a leaf-index list points at.
pub open spec fn spec_leaf_bodies(bodies: Seq<Body>, leaves: Seq<usize>) -> Seq<Body> {
    leaves.map_values(|i: usize| bodies[i as int])
}

/// The leaf indices of the current roots selected by a component, in
/// component order.
pub open spec fn spec_concat_leaves(rn: Seq<SpecNode>, g: Seq<usize>) -> Seq<usize>
    decreases g.len(),
{
    if g.len() == 0 {
        Seq::empty()
    } else {
        spec_concat_leaves(rn, g.drop_last()) + rn[g.last() as int].leaves
    }
}

/// The combined mass of a component: the sum of its members' node masses, in
/// component order.
pub open spec fn spec_children_mass(rn: Seq<SpecNode>, g: Seq<usize>) -> Scalar
    decreases g.len(),
{
    if g.len() == 0 {
        Scalar::spec_zero()
    } else {
        Scalar::spec_add(spec_children_mass(rn, g.drop_last()), rn[g.last() as int].mass)
    }
}

/// The synthetic node for a component: the members' leaves pooled, positioned
/// at the barycenter of all leaf descendants, with the summed mass.
pub open spec fn spec_group_node(bodies: Seq<Body>, rn: Seq<SpecNode>, g: Seq<usize>) -> SpecNode {
    let leaves = spec_concat_leaves(rn, g);
    SpecNode {
        leaves,
        is_leaf: false,
        pos: crate::physics::spec_barycenter_abs(spec_leaf_bodies(bodies, leaves)),
        vel: crate::physics::spec_barycentric_velocity(spec_leaf_bodies(bodies, leaves)),
        mass: spec_children_mass(rn, g),
    }
}

/// Parent assignments after a new node `p` adopts the roots selected by `g`.
pub open spec fn spec_adopt(ps: Seq<Option<usize>>, rs_idx: Seq<usize>, g: Seq<usize>,
    p: usize) -> Seq<Option<usize>> {
    Seq::new(ps.len(), |i: int| if exists|j: int| 0 <= j < g.len() && rs_idx[g[j] as int] == i {
        Some(p)
    } else {
        ps[i]
    })
}

/// The parentless arena indices among the first `k`, ascending.
pub open spec fn spec_roots_upto(ps: Seq<Option<usize>>, k: int) -> Seq<usize>
    decreases k,
{
    if k <= 0 {
        Seq::empty()
    } else {
        spec_roots_upto(ps, k - 1) + (if ps[k - 1] is None {
            seq![(k - 1) as usize]
        } else {
            Seq::empty()
        })
    }
}

/// The current roots: every arena node without a parent, in arena order.
pub open spec fn spec_find_roots(ps: Seq<Option<usize>>) -> Seq<usize> {
    spec_roots_upto(ps, ps.len() as int)
}

/// The current roots as nodes.
pub open spec fn spec_root_nodes(ns: Seq<SpecNode>, rs_idx: Seq<usize>) -> Seq<SpecNode> {
    rs_idx.map_values(|i: usize| ns[i as int])
}

/// Append a group node for each multi-member component among the first `k`,
/// in component order; fail if a group's total leaf mass vanishes.
pub open spec fn spec_apply_groups(bodies: Seq<Body>, ns: Seq<SpecNode>, ps: Seq<Option<usize>>,
    rs_idx: Seq<usize>, rn: Seq<SpecNode>, gs: Seq<Seq<usize>>, k: int) -> Result<(Seq<SpecNode>,
    Seq<Option<usize>>), HierarchyError>
    decreases k,
{
    if k <= 0 {
        Ok((ns, ps))
    } else {
        match spec_apply_groups(bodies, ns, ps, rs_idx, rn, gs, k - 1) {
            Err(e) => Err(e),
            Ok((ns1, ps1)) => {
                let g = gs[k - 1];
                if g.len() > 1 {
                    let node = spec_group_node(bodies, rn, g);
                    if crate::physics::spec_mass_sum(spec_leaf_bodies(bodies,
                        node.leaves)).spec_is_zero() {
                        Err(HierarchyError::DegenerateMass)
                    } else {
                        Ok((ns1.push(node), spec_adopt(ps1, rs_idx, g, ns1.len() as usize).push(
                            None)))
                    }
                } else {
                    Ok((ns1, ps1))
                }
            },
        }
    }
}

/// Run grouping levels until no merge happens, then wrap all remaining roots
/// into one final top-level group; give up past ten levels.
pub open spec fn spec_build_levels(bodies: Seq<Body>, ns: Seq<SpecNode>, ps: Seq<Option<usize>>,
    level: int) -> Result<(Seq<SpecNode>, Seq<Option<usize>>), HierarchyError>
    decreases 11 - level,
{
    if level > 10 {
        Err(HierarchyError::LoopLimit)
    } else {
        let rs_idx = spec_find_roots(ps);
        let rn = spec_root_nodes(ns, rs_idx);
        let gs = spec_build_one_level(rn);
        if gs.len() == rs_idx.len() {
            let g_all = Seq::new(rs_idx.len(), |i: int| i as usize);
            let node = spec_group_node(bodies, rn, g_all);
            if crate::physics::spec_mass_sum(spec_leaf_bodies(bodies, node.leaves)).spec_is_zero() {
                Err(HierarchyError::DegenerateMass)
            } else {
                Ok((ns.push(node), spec_adopt(ps, rs_idx, g_all, ns.len() as usize).push(None)))
            }
        } else {
            match spec_apply_groups(bodies, ns, ps, rs_idx, rn, gs, gs.len() as int) {
                Err(e) => Err(e),
                Ok((ns2, ps2)) => spec_build_levels(bodies, ns2, ps2, level + 1),
            }
        }
    }
}

/// One leaf node per body, in body order.
pub open spec fn spec_leaf_nodes(bodies: Seq<Body>) -> Seq<SpecNode> {
    Seq::new(bodies.len(), |i: int| SpecNode {
        leaves: seq![i as usize],
        is_leaf: true,
        pos: bodies[i].absolute_pos,
        vel: bodies[i].absolute_vel,
        mass: bodies[i].mass,
    })
}

pub open spec fn spec_no_parents(n: nat) -> Seq<Option<usize>> {
    Seq::new(n, |i: int| None::<usize>)
}

/// The finished arena for a body list: a single body is its own root; larger
/// sets run the level loop.
pub open spec fn spec_build_arena(bodies: Seq<Body>) -> Result<(Seq<SpecNode>,
    Seq<Option<usize>>), HierarchyError> {
    if bodies.len() == 1 {
        Ok((spec_leaf_nodes(bodies), spec_no_parents(1)))
    } else {
        spec_build_levels(bodies, spec_leaf_nodes(bodies), spec_no_parents(bodies.len()), 1)
    }
}

/// Every leaf index stored in the arena points into the body list.
pub open spec fn leaves_below(ns: Seq<SpecNode>, n: int) -> bool {
    forall|i: int, j: int| 0 <= i < ns.len() && 0 <= j < (#[trigger] ns[i]).leaves.len() ==> (
    #[trigger] ns[i].leaves[j]) < n
}

/// A copied leaf list.
#[verifier::loop_isolation(false)]
fn copy_indices(v: &Vec<usize>) -> (r: Vec<usize>)
    ensures
        r@ == v@,
    decreases v@.len(),
{
    let mut r: Vec<usize> = Vec::new();
    let mut i: usize = 0;
    while i < v.len()
        invariant
            i <= v@.len(),
            r@ == v@.take(i as int),
        decreases v@.len() - i,
    {
        proof {
            assert(v@.take(i as int + 1) =~= v@.take(i as int).push(v@[i as int]));
        }
        r.push(v[i]);
        i = i + 1;
    }
    proof {
        assert(v@.take(v@.len() as int) =~= v@);
    }
    r
}

/// A copied arena node.
fn copy_node(n: &HNode) -> (r: HNode)
    ensures
        r@ == n@,
{
    HNode {
        leaves: copy_indices(&n.leaves),
        is_leaf: n.is_leaf,
        pos: n.pos,
        vel: n.vel,
        mass: n.mass,
    }
}

/// The current roots: every arena node without a parent, in arena order.
#[verifier::loop_isolation(false)]
fn find_roots(ps: &Vec<Option<usize>>) -> (r: Vec<usize>)
    ensures
        r@ == spec_find_roots(ps@),
        forall|i: int| 0 <= i < r@.len() ==> (#[trigger] r@[i]) < ps@.len(),
    decreases ps@.len(),
{
    let mut r: Vec<usize> = Vec::new();
    let mut i: usize = 0;
    while i < ps.len()
        invariant
            i <= ps@.len(),
            r@ == spec_roots_upto(ps@, i as int),
            forall|j: int| 0 <= j < r@.len() ==> (#[trigger] r@[j]) < i,
        decreases ps@.len() - i,
    {
        if ps[i].is_none() {
            r.push(i);
        }
        i = i + 1;
    }
    r
}

/// The component's members' leaf lists pooled, in component order.
#[verifier::loop_isolation(false)]
fn concat_leaves(rn: &Vec<HNode>, g: &Vec<usize>) -> (r: Vec<usize>)
    requires
        forall|i: int| 0 <= i < g@.len() ==> (#[trigger] g@[i]) < rn@.len(),
    ensures
        r@ == spec_concat_leaves(views_of(rn@), g@),
{
    let mut r: Vec<usize> = Vec::new();
    let mut k: usize = 0;
    while k < g.len()
        invariant
            k <= g@.len(),
            r@ == spec_concat_leaves(views_of(rn@), g@.take(k as int)),
        decreases g@.len() - k,
    {
        proof {
            assert(g@.take(k as int + 1).drop_last() =~= g@.take(k as int));
            assert(g@.take(k as int + 1).last() == g@[k as int]);
        }
        let mut part = copy_indices(&rn[g[k]].leaves);
        r.append(&mut part);
        k = k + 1;
    }
    proof {
        assert(g@.take(g@.len() as int) =~= g@);
    }
    r
}

/// The combined mass of a component, member node masses summed in order.
#[verifier::loop_isolation(false)]
fn children_mass(rn: &Vec<HNode>, g: &Vec<usize>) -> (m: Scalar)
    requires
        forall|i: int| 0 <= i < g@.len() ==> (#[trigger] g@[i]) < rn@.len(),
        forall|i: int| 0 <= i < rn@.len() ==> (#[trigger] rn@[i])@.wf(),
    ensures
        m == spec_children_mass(views_of(rn@), g@),
        m.wf(),
        !m.neg,
{
    let mut m = Scalar::zero();
    let mut k: usize = 0;
    while k < g.len()
        invariant
            k <= g@.len(),
            m == spec_children_mass(views_of(rn@), g@.take(k as int)),
            m.wf(),
            !m.neg,
        decreases g@.len() - k,
    {
        proof {
            assert(g@.take(k as int + 1).drop_last() =~= g@.take(k as int));
            assert(g@.take(k as int + 1).last() == g@[k as int]);
            crate::scalar::lemma_add_sign(m, rn@[g@[k as int] as int].mass);
        }
        m = m.add(rn[g[k]].mass);
        k = k + 1;
    }
    proof {
        assert(g@.take(g@.len() as int) =~= g@);
    }
    m
}

/// The bodies below a pooled leaf list, copied in order.
#[verifier::loop_isolation(false)]
fn gather_leaf_bodies(bodies: &Vec<Body>, leaves: &Vec<usize>) -> (r: Vec<Body>)
    requires
        forall|i: int| 0 <= i < leaves@.len() ==> (#[trigger] leaves@[i]) < bodies@.len(),
        forall|i: int| 0 <= i < bodies@.len() ==> (#[trigger] bodies@[i]).wf(),
    ensures
        r@.len() == leaves@.len(),
        forall|i: int| 0 <= i < r@.len() ==> (#[trigger] r@[i]).seed() == spec_leaf_bodies(
            bodies@, leaves@)[i].seed(),
        forall|i: int| 0 <= i < r@.len() ==> (#[trigger] r@[i]).wf(),
{
    let mut r: Vec<Body> = Vec::new();
    let mut k: usize = 0;
    while k < leaves.len()
        invariant
            k <= leaves@.len(),
            r@.len() == k,
            forall|i: int| 0 <= i < k ==> (#[trigger] r@[i]).seed() == spec_leaf_bodies(bodies@,
                leaves@)[i].seed(),
            forall|i: int| 0 <= i < k ==> (#[trigger] r@[i]).wf(),
        decreases leaves@.len() - k,
    {
        r.push(bodies[leaves[k]].copy());
        k = k + 1;
    }
    r
}

/// Build the synthetic node for a component of the current roots; fails when
/// the combined leaf mass vanishes (the barycenter would be undefined).
#[verifier::loop_isolation(false)]
fn make_group_node(bodies: &Vec<Body>, rn: &Vec<HNode>, g: &Vec<usize>) -> (r: Result<HNode,
    HierarchyError>)
    requires
        forall|i: int| 0 <= i < g@.len() ==> (#[trigger] g@[i]) < rn@.len(),
        forall|i: int| 0 <= i < rn@.len() ==> (#[trigger] rn@[i])@.wf(),
        forall|i: int| 0 <= i < bodies@.len() ==> (#[trigger] bodies@[i]).wf(),
        forall|i: int, j: int| 0 <= i < rn@.len() && 0 <= j < (
        #[trigger] rn@[i]).leaves@.len() ==> (#[trigger] rn@[i].leaves@[j]) < bodies@.len(),
    ensures
        r is Ok ==> !crate::physics::spec_mass_sum(spec_leaf_bodies(bodies@, spec_concat_leaves(
            views_of(rn@), g@))).spec_is_zero(),
        r is Ok ==> r.unwrap()@ == spec_group_node(bodies@, views_of(rn@), g@),
        r is Ok ==> r.unwrap()@.wf(),
        r is Err ==> r == Result::<HNode, HierarchyError>::Err(HierarchyError::DegenerateMass)
            && crate::physics::spec_mass_sum(spec_leaf_bodies(bodies@, spec_concat_leaves(
            views_of(rn@), g@))).spec_is_zero(),
{
    let leaves = concat_leaves(rn, g);
    proof {
        lemma_concat_leaves_below(views_of(rn@), g@, bodies@.len() as int);
    }
    let leaf_bodies = gather_leaf_bodies(bodies, &leaves);
    proof {
        crate::physics::lemma_sums_seed_equal(leaf_bodies@, spec_leaf_bodies(bodies@, leaves@));
    }
    let mut mass_sum = Scalar::zero();
    let mut k: usize = 0;
    while k < leaf_bodies.len()
        invariant
            k <= leaf_bodies@.len(),
            mass_sum == crate::physics::spec_mass_sum(leaf_bodies@.take(k as int)),
            mass_sum.wf(),
            forall|i: int| 0 <= i < leaf_bodies@.len() ==> (#[trigger] leaf_bodies@[i]).wf(),
        decreases leaf_bodies@.len() - k,
    {
        proof {
            assert(leaf_bodies@.take(k as int + 1).drop_last() =~= leaf_bodies@.take(k as int));
            assert(leaf_bodies@.take(k as int + 1).last() == leaf_bodies@[k as int]);
        }
        mass_sum = mass_sum.add(leaf_bodies[k].mass);
        k = k + 1;
    }
    proof {
        assert(leaf_bodies@.take(leaf_bodies@.len() as int) =~= leaf_bodies@);
    }
    if mass_sum.is_zero() {
        return Err(HierarchyError::DegenerateMass);
    }
    let pos = crate::physics::barycenter_abs(&leaf_bodies);
    let vel = crate::physics::barycentric_velocity(&leaf_bodies);
    let mass = children_mass(rn, g);
    Ok(HNode { leaves, is_leaf: false, pos, vel, mass })
}

proof fn lemma_concat_leaves_below(rn: Seq<SpecNode>, g: Seq<usize>, n: int)
    requires
        forall|i: int| 0 <= i < g.len() ==> (#[trigger] g[i]) < rn.len(),
        forall|i: int, j: int| 0 <= i < rn.len() && 0 <= j < (#[trigger] rn[i]).leaves.len() ==> (
        #[trigger] rn[i].leaves[j]) < n,
    ensures
        forall|j: int| 0 <= j < spec_concat_leaves(rn, g).len() ==> (#[trigger] spec_concat_leaves(
            rn, g)[j]) < n,
    decreases g.len(),
{
    if g.len() > 0 {
        lemma_concat_leaves_below(rn, g.drop_last(), n);
        let prev = spec_concat_leaves(rn, g.drop_last());
        let tail = rn[g.last() as int].leaves;
        assert forall|j: int| 0 <= j < spec_concat_leaves(rn, g).len() implies (
        #[trigger] spec_concat_leaves(rn, g)[j]) < n by {
            if j < prev.len() {
                assert(spec_concat_leaves(rn, g)[j] == prev[j]);
            } else {
                assert(spec_concat_leaves(rn, g)[j] == tail[j - prev.len()]);
            }
        }
    }
}

/// Point every root selected by the component at the new parent.
#[verifier::loop_isolation(false)]
fn adopt(ps: &mut Vec<Option<usize>>, rs_idx: &Vec<usize>, g: &Vec<usize>, p: usize)
    requires
        forall|j: int| 0 <= j < g@.len() ==> (#[trigger] g@[j]) < rs_idx@.len(),
        forall|j: int| 0 <= j < rs_idx@.len() ==> (#[trigger] rs_idx@[j]) < old(ps)@.len(),
    ensures
        final(ps)@ == spec_adopt(old(ps)@, rs_idx@, g@, p),
{
    let ghost pre = ps@;
    let mut t: usize = 0;
    while t < g.len()
        invariant
            t <= g@.len(),
            ps@.len() == pre.len(),
            forall|i: int| 0 <= i < pre.len() ==> ps@[i] == (if exists|j: int| 0 <= j < t
                && rs_idx@[g@[j] as int] == i {
                Some(p)
            } else {
                pre[i]
            }),
        decreases g@.len() - t,
    {
        let ghost mid = ps@;
        let idx = rs_idx[g[t]];
        ps.set(idx, Some(p));
        proof {
            assert forall|i: int| 0 <= i < pre.len() implies ps@[i] == (if exists|j: int| 0 <= j < t
                + 1 && rs_idx@[g@[j] as int] == i {
                Some(p)
            } else {
                pre[i]
            }) by {
                if i == idx {
                    assert(rs_idx@[g@[t as int] as int] == i);
                } else {
                    if exists|j: int| 0 <= j < t + 1 && rs_idx@[g@[j] as int] == i {
                        let j = choose|j: int| 0 <= j < t + 1 && rs_idx@[g@[j] as int] == i;
                        assert(j < t);
                        assert(exists|j2: int| 0 <= j2 < t && rs_idx@[g@[j2] as int] == i);
                    }
                }
            }
        }
        t = t + 1;
    }
    proof {
        assert(ps@ =~= spec_adopt(pre, rs_idx@, g@, p));
    }
}

/// Component members are positions in the labeling.
proof fn lemma_members_bounds(labels: Seq<usize>, l: usize, k: int)
    requires
        k <= usize::MAX as int + 1,
    ensures
        forall|j: int| 0 <= j < spec_members_upto(labels, l, k).len() ==> (
        #[trigger] spec_members_upto(labels, l, k)[j]) < k,
    decreases k,
{
    if k > 0 {
        lemma_members_bounds(labels, l, k - 1);
        let small = spec_members_upto(labels, l, k - 1);
        let big = spec_members_upto(labels, l, k);
        assert forall|j: int| 0 <= j < big.len() implies (#[trigger] big[j]) < k by {
            if j < small.len() {
                assert(big[j] == small[j]);
            } else {
                assert(labels[k - 1] == l);
                assert(big[j] == (k - 1) as usize);
            }
        }
    }
}

proof fn lemma_groups_bounds(labels: Seq<usize>, k: int)
    requires
        labels.len() <= usize::MAX as int,
    ensures
        forall|gi: int, j: int| 0 <= gi < spec_groups_upto(labels, k).len() && 0 <= j < (
        #[trigger] spec_groups_upto(labels, k)[gi]).len() ==> (#[trigger] spec_groups_upto(labels,
            k)[gi][j]) < labels.len(),
    decreases k,
{
    if k > 0 {
        lemma_groups_bounds(labels, k - 1);
        let small = spec_groups_upto(labels, k - 1);
        let big = spec_groups_upto(labels, k);
        assert forall|gi: int, j: int| 0 <= gi < big.len() && 0 <= j < (
        #[trigger] big[gi]).len() implies (#[trigger] big[gi][j]) < labels.len() by {
            if gi < small.len() {
                assert(big[gi] == small[gi]);
            } else {
                assert(spec_is_first(labels, k - 1));
                assert(big[gi] == spec_members(labels, labels[k - 1]));
                lemma_members_bounds(labels, labels[k - 1], labels.len() as int);
            }
        }
    }
}

/// An index is parentless exactly when the root scan lists it.
proof fn lemma_roots_complete(ps: Seq<Option<usize>>, k: int, i: usize)
    requires
        0 <= i < k <= ps.len(),
        k <= usize::MAX as int,
    ensures
        (ps[i as int] is None) <==> spec_roots_upto(ps, k).contains(i),
    decreases k,
{
    let small = spec_roots_upto(ps, k - 1);
    let big = spec_roots_upto(ps, k);
    lemma_roots_bound_below(ps, k - 1);
    if i as int == k - 1 {
        if ps[i as int] is None {
            assert(big[big.len() - 1] == i);
            assert(big.contains(i));
        } else {
            assert(big =~= small);
            if big.contains(i) {
                let j = choose|j: int| 0 <= j < big.len() && (#[trigger] big[j]) == i;
                assert(small[j] == i);
                assert(false);
            }
        }
    } else {
        lemma_roots_complete(ps, k - 1, i);
        if ps[i as int] is None {
            let j = choose|j: int| 0 <= j < small.len() && (#[trigger] small[j]) == i;
            assert(big[j] == i);
            assert(big.contains(i));
        } else {
            if big.contains(i) {
                let j = choose|j: int| 0 <= j < big.len() && (#[trigger] big[j]) == i;
                if j < small.len() {
                    assert(small[j] == i);
                    assert(small.contains(i));
                } else {
                    assert(ps[k - 1] is None);
                    assert(big[j] == (k - 1) as usize);
                }
                assert(false);
            }
        }
    }
}

/// Every listed root is below the scan bound.
proof fn lemma_roots_bound_below(ps: Seq<Option<usize>>, k: int)
    requires
        k <= usize::MAX as int + 1,
    ensures
        forall|j: int| 0 <= j < spec_roots_upto(ps, k).len() ==> (
        #[trigger] spec_roots_upto(ps, k)[j]) < k,
    decreases k,
{
    if k > 0 {
        lemma_roots_bound_below(ps, k - 1);
        let small = spec_roots_upto(ps, k - 1);
        let big = spec_roots_upto(ps, k);
        assert forall|j: int| 0 <= j < big.len() implies (#[trigger] big[j]) < k by {
            if j < small.len() {
                assert(big[j] == small[j]);
            } else {
                assert(ps[k - 1] is None);
                assert(big[j] == (k - 1) as usize);
            }
        }
    }
}

/// A listed root is parentless.
proof fn lemma_roots_sound(ps: Seq<Option<usize>>, k: int)
    requires
        0 <= k <= ps.len(),
        k <= usize::MAX as int,
    ensures
        forall|j: int| 0 <= j < spec_roots_upto(ps, k).len() ==> ps[(
        #[trigger] spec_roots_upto(ps, k)[j]) as int] is None,
    decreases k,
{
    if k > 0 {
        lemma_roots_sound(ps, k - 1);
        lemma_roots_bound_below(ps, k);
        let small = spec_roots_upto(ps, k - 1);
        let big = spec_roots_upto(ps, k);
        assert forall|j: int| 0 <= j < big.len() implies ps[(#[trigger] big[j]) as int]
            is None by {
            if j < small.len() {
                assert(big[j] == small[j]);
                assert(ps[small[j] as int] is None);
            } else {
                assert(ps[k - 1] is None);
                assert(big[j] == (k - 1) as usize);
            }
        }
    }
}

/// Arena soundness carried through the build: as many parent slots as nodes,
/// every parent above its child, every node well-formed, every leaf index in
/// range.
pub open spec fn arena_wf(bodies: Seq<Body>, ns: Seq<SpecNode>, ps: Seq<Option<usize>>) -> bool {
    &&& ps.len() == ns.len()
    &&& forall|i: int| 0 <= i < ps.len() && (#[trigger] ps[i]) is Some ==> i
        < ps[i].unwrap() < ps.len()
    &&& forall|i: int| 0 <= i < ns.len() ==> (#[trigger] ns[i]).wf()
    &&& leaves_below(ns, bodies.len() as int)
}

/// Append a group node for each multi-member component of this level, in
/// component order.
#[verifier::loop_isolation(false)]
#[verifier::rlimit(100)]
fn apply_level_groups(bodies: &Vec<Body>, nodes: &mut Vec<HNode>, ps: &mut Vec<Option<usize>>,
    rs_idx: &Vec<usize>, rn: &Vec<HNode>, gs: &Vec<Vec<usize>>) -> (r: Result<(), HierarchyError>)
    requires
        arena_wf(bodies@, views_of(old(nodes)@), old(ps)@),
        forall|i: int| 0 <= i < bodies@.len() ==> (#[trigger] bodies@[i]).wf(),
        forall|j: int| 0 <= j < rs_idx@.len() ==> (#[trigger] rs_idx@[j]) < old(nodes)@.len(),
        forall|k: int, j: int| 0 <= k < gs@.len() && 0 <= j < (#[trigger] gs@[k])@.len() ==> (
        #[trigger] gs@[k]@[j]) < rs_idx@.len(),
        forall|i: int, j: int| 0 <= i < rn@.len() && 0 <= j < (
        #[trigger] rn@[i]).leaves@.len() ==> (#[trigger] rn@[i].leaves@[j]) < bodies@.len(),
        forall|i: int| 0 <= i < rn@.len() ==> (#[trigger] rn@[i])@.wf(),
        views_of(rn@) == spec_root_nodes(views_of(old(nodes)@), rs_idx@),
        forall|j: int| 0 <= j < rs_idx@.len() ==> old(ps)@[rs_idx@[j] as int] is None,
    ensures
        r is Ok ==> spec_apply_groups(bodies@, views_of(old(nodes)@), old(ps)@, rs_idx@,
            views_of(rn@), deep_view_of(gs@), gs@.len() as int) == Ok::<_, HierarchyError>((
        views_of(final(nodes)@), final(ps)@)),
        r matches Err(e) ==> spec_apply_groups(bodies@, views_of(old(nodes)@), old(ps)@, rs_idx@,
            views_of(rn@), deep_view_of(gs@), gs@.len() as int) == Err::<(Seq<SpecNode>,
        Seq<Option<usize>>), HierarchyError>(e),
        r is Ok ==> arena_wf(bodies@, views_of(final(nodes)@), final(ps)@),
        r is Ok ==> final(nodes)@.len() >= old(nodes)@.len(),
        r is Ok ==> forall|i: int| 0 <= i < old(nodes)@.len() ==> (#[trigger] final(
            nodes)@[i])@ == old(nodes)@[i]@,
        r is Ok ==> forall|i: int| old(nodes)@.len() <= i < final(nodes)@.len() ==> !(
        #[trigger] final(nodes)@[i])@.is_leaf,
{
    let ghost ns0 = views_of(old(nodes)@);
    let ghost ps0 = old(ps)@;
    let ghost rnv = views_of(rn@);
    let ghost gsv = deep_view_of(gs@);
    let mut k: usize = 0;
    while k < gs.len()
        invariant
            k <= gs@.len(),
            spec_apply_groups(bodies@, ns0, ps0, rs_idx@, rnv, gsv, k as int) == Ok::<_,
                HierarchyError>((views_of(nodes@), ps@)),
            arena_wf(bodies@, views_of(nodes@), ps@),
            nodes@.len() >= old(nodes)@.len(),
            forall|i: int| 0 <= i < old(nodes)@.len() ==> (#[trigger] nodes@[i])@ == old(
                nodes)@[i]@,
            forall|i: int| old(nodes)@.len() <= i < nodes@.len() ==> !(
            #[trigger] nodes@[i])@.is_leaf,
            forall|j: int| 0 <= j < rs_idx@.len() ==> (#[trigger] rs_idx@[j]) < nodes@.len(),
        decreases gs@.len() - k,
    {
        proof {
            assert(gsv[k as int] == gs@[k as int]@);
        }
        let g = &gs[k];
        proof {
            assert(rnv.len() == rn@.len());
            assert(rnv.len() == rs_idx@.len());
            assert(g@ == gs@[k as int]@);
        }
        if g.len() > 1 {
            let ghost pre_ns = views_of(nodes@);
            let ghost pre_ps = ps@;
            let node = match make_group_node(bodies, rn, g) {
                Ok(node) => node,
                Err(e) => {
                    proof {
                        assert(spec_apply_groups(bodies@, ns0, ps0, rs_idx@, rnv, gsv, k as int
                            + 1) == Err::<(Seq<SpecNode>, Seq<Option<usize>>), HierarchyError>(
                            HierarchyError::DegenerateMass));
                        lemma_apply_groups_err(bodies@, ns0, ps0, rs_idx@, rnv, gsv, k as int + 1,
                            gs@.len() as int);
                    }
                    return Err(e);
                },
            };
            let p = nodes.len();
            proof {
                lemma_concat_leaves_below(rnv, gs@[k as int]@, bodies@.len() as int);
            }
            nodes.push(node);
            adopt(ps, rs_idx, g, p);
            ps.push(None);
            proof {
                assert(views_of(nodes@) =~= pre_ns.push(node@));
                assert(ps@ =~= spec_adopt(pre_ps, rs_idx@, gs@[k as int]@, p).push(None));
                assert(spec_apply_groups(bodies@, ns0, ps0, rs_idx@, rnv, gsv, k as int + 1)
                    == Ok::<_, HierarchyError>((views_of(nodes@), ps@)));
            }
        } else {
            proof {
                assert(spec_apply_groups(bodies@, ns0, ps0, rs_idx@, rnv, gsv, k as int + 1)
                    == Ok::<_, HierarchyError>((views_of(nodes@), ps@)));
            }
        }
        k = k + 1;
    }
    Ok(())
}

/// Once group creation fails, processing more components keeps the failure.
proof fn lemma_apply_groups_err(bodies: Seq<Body>, ns: Seq<SpecNode>, ps: Seq<Option<usize>>,
    rs_idx: Seq<usize>, rn: Seq<SpecNode>, gs: Seq<Seq<usize>>, k: int, k2: int)
    requires
        k <= k2,
        spec_apply_groups(bodies, ns, ps, rs_idx, rn, gs, k) is Err,
    ensures
        spec_apply_groups(bodies, ns, ps, rs_idx, rn, gs, k2) == spec_apply_groups(bodies, ns, ps,
            rs_idx, rn, gs, k),
    decreases k2 - k,
{
    if k2 > k {
        lemma_apply_groups_err(bodies, ns, ps, rs_idx, rn, gs, k, k2 - 1);
    }
}

/// Merging labels never changes how many there are.
proof fn lemma_labels_len(n: nat, edges: Seq<Edge>, k: int)
    ensures
        spec_labels_upto(n, edges, k).len() == n,
    decreases k,
{
    if k > 0 {
        lemma_labels_len(n, edges, k - 1);
    }
}

/// Build the whole arena: one leaf per body, then grouping levels until no
/// merge happens and a final root wraps the remaining roots.
#[verifier::loop_isolation(false)]
#[verifier::rlimit(100)]
fn build_arena(bodies: &Vec<Body>) -> (r: Result<(Vec<HNode>, Vec<Option<usize>>),
    HierarchyError>)
    requires
        bodies@.len() >= 1,
        forall|i: int| 0 <= i < bodies@.len() ==> (#[trigger] bodies@[i]).wf(),
    ensures
        r matches Ok(t) ==> spec_build_arena(bodies@) == Ok::<_, HierarchyError>((views_of(t.0@),
        t.1@)),
        r matches Err(e) ==> spec_build_arena(bodies@) == Err::<(Seq<SpecNode>,
        Seq<Option<usize>>), HierarchyError>(e),
        r matches Ok(t) ==> arena_wf(bodies@, views_of(t.0@), t.1@),
        r matches Ok(t) ==> t.0@.len() >= bodies@.len() && (forall|i: int| 0 <= i
            < bodies@.len() ==> (#[trigger] t.0@[i])@ == spec_leaf_nodes(bodies@)[i]),
        r matches Ok(t) ==> (forall|i: int| bodies@.len() <= i < t.0@.len() ==> !(
        #[trigger] t.0@[i])@.is_leaf),
        r matches Ok(t) ==> (forall|i: int| 0 <= i < t.1@.len() - 1 ==> (
        #[trigger] t.1@[i]) is Some) && t.1@[t.1@.len() - 1] is None,
{
    let ghost lnv = spec_leaf_nodes(bodies@);
    let mut nodes: Vec<HNode> = Vec::new();
    let mut ps: Vec<Option<usize>> = Vec::new();
    let mut i: usize = 0;
    while i < bodies.len()
        invariant
            i <= bodies@.len(),
            nodes@.len() == i,
            ps@.len() == i,
            forall|j: int| 0 <= j < i ==> (#[trigger] nodes@[j])@ == lnv[j],
            forall|j: int| 0 <= j < i ==> (#[trigger] ps@[j]) is None,
        decreases bodies@.len() - i,
    {
        let mut lv: Vec<usize> = Vec::new();
        lv.push(i);
        proof {
            assert(lv@ =~= seq![i]);
        }
        nodes.push(HNode {
            leaves: lv,
            is_leaf: true,
            pos: bodies[i].absolute_pos,
            vel: bodies[i].absolute_vel,
            mass: bodies[i].mass,
        });
        ps.push(None);
        i = i + 1;
    }
    proof {
        assert(views_of(nodes@) =~= lnv);
        assert(ps@ =~= spec_no_parents(bodies@.len()));
    }
    if bodies.len() == 1 {
        return Ok((nodes, ps));
    }
    let ghost target = spec_build_levels(bodies@, lnv, spec_no_parents(bodies@.len()), 1);
    let mut level: usize = 1;
    while level <= 10
        invariant
            1 <= level <= 11,
            bodies@.len() >= 2,
            spec_build_levels(bodies@, views_of(nodes@), ps@, level as int) == target,
            arena_wf(bodies@, views_of(nodes@), ps@),
            nodes@.len() >= bodies@.len(),
            forall|j: int| 0 <= j < bodies@.len() ==> (#[trigger] nodes@[j])@ == lnv[j],
            forall|j: int| bodies@.len() <= j < nodes@.len() ==> !(
            #[trigger] nodes@[j])@.is_leaf,
        decreases 11 - level,
    {
        let ghost ns0 = views_of(nodes@);
        let ghost ps0 = ps@;
        let roots_idx = find_roots(&ps);
        let ps_len = ps.len();
        proof {
            lemma_roots_sound(ps@, ps_len as int);
        }
        let mut rn: Vec<HNode> = Vec::new();
        let mut j: usize = 0;
        while j < roots_idx.len()
            invariant
                j <= roots_idx@.len(),
                rn@.len() == j,
                forall|t: int| 0 <= t < roots_idx@.len() ==> (#[trigger] roots_idx@[t])
                    < nodes@.len(),
                forall|t: int| 0 <= t < j ==> (#[trigger] rn@[t])@ == views_of(
                    nodes@)[roots_idx@[t] as int],
            decreases roots_idx@.len() - j,
        {
            let node = copy_node(&nodes[roots_idx[j]]);
            rn.push(node);
            j = j + 1;
        }
        proof {
            assert(views_of(rn@) =~= spec_root_nodes(views_of(nodes@), roots_idx@));
            assert forall|a: int, b: int| 0 <= a < rn@.len() && 0 <= b < (
            #[trigger] rn@[a]).leaves@.len() implies (#[trigger] rn@[a].leaves@[b])
                < bodies@.len() by {
                assert(rn@[a]@ == views_of(nodes@)[roots_idx@[a] as int]);
                assert(views_of(nodes@)[roots_idx@[a] as int].leaves[b] < bodies@.len());
            }
        }
        let gs = build_one_level(&rn);
        proof {
            let edges = spec_group_edges(views_of(rn@), views_of(rn@).len() as int);
            let labels = spec_component_labels(views_of(rn@).len(), edges);
            lemma_labels_len(views_of(rn@).len(), edges, edges.len() as int);
            lemma_groups_bounds(labels, labels.len() as int);
            assert(deep_view_of(gs@) == spec_component_groups(labels));
            assert forall|k: int, t: int| 0 <= k < gs@.len() && 0 <= t < (
            #[trigger] gs@[k])@.len() implies (#[trigger] gs@[k]@[t]) < roots_idx@.len() by {
                assert(gs@[k]@ == deep_view_of(gs@)[k]);
            }
        }
        if gs.len() == roots_idx.len() {
            let mut g_all: Vec<usize> = Vec::new();
            let mut t: usize = 0;
            while t < roots_idx.len()
                invariant
                    t <= roots_idx@.len(),
                    g_all@.len() == t,
                    forall|u: int| 0 <= u < t ==> (#[trigger] g_all@[u]) == u as usize,
                decreases roots_idx@.len() - t,
            {
                g_all.push(t);
                t = t + 1;
            }
            proof {
                assert(g_all@ =~= Seq::new(roots_idx@.len(), |u: int| u as usize));
            }
            match make_group_node(bodies, &rn, &g_all) {
                Err(e) => {
                    proof {
                        assert(spec_build_levels(bodies@, ns0, ps0, level as int) == Err::<(
                        Seq<SpecNode>, Seq<Option<usize>>), HierarchyError>(
                            HierarchyError::DegenerateMass));
                    }
                    return Err(e);
                },
                Ok(node) => {
                    let p = nodes.len();
                    proof {
                        lemma_concat_leaves_below(views_of(rn@), g_all@, bodies@.len() as int);
                    }
                    nodes.push(node);
                    adopt(&mut ps, &roots_idx, &g_all, p);
                    ps.push(None);
                    proof {
                        assert(views_of(nodes@) =~= ns0.push(node@));
                        assert(ps@ =~= spec_adopt(ps0, roots_idx@, g_all@, p).push(None));
                        assert(spec_build_levels(bodies@, ns0, ps0, level as int) == Ok::<_,
                            HierarchyError>((views_of(nodes@), ps@)));
                        assert forall|u: int| 0 <= u < ps@.len() - 1 implies (
                        #[trigger] ps@[u]) is Some by {
                            if ps0[u] is None {
                                lemma_roots_complete(ps0, ps0.len() as int, u as usize);
                                let w = choose|w: int| 0 <= w < spec_find_roots(ps0).len() && (
                                #[trigger] spec_find_roots(ps0)[w]) == u as usize;
                                assert(roots_idx@[g_all@[w] as int] == u as usize);
                            }
                        }
                    }
                    return Ok((nodes, ps));
                },
            }
        } else {
            match apply_level_groups(bodies, &mut nodes, &mut ps, &roots_idx, &rn, &gs) {
                Err(e) => {
                    proof {
                        assert(spec_build_levels(bodies@, ns0, ps0, level as int) == Err::<(
                        Seq<SpecNode>, Seq<Option<usize>>), HierarchyError>(e));
                    }
                    return Err(e);
                },
                Ok(()) => {
                },
            }
            level = level + 1;
        }
    }
    proof {
        assert(spec_build_levels(bodies@, views_of(nodes@), ps@, 11) == Err::<(Seq<SpecNode>,
        Seq<Option<usize>>), HierarchyError>(HierarchyError::LoopLimit));
    }
    Err(HierarchyError::LoopLimit)
}

proof fn lemma_cut_in_range(d: Seq<(usize, Scalar)>, k: nat)
    requires
        spec_cut(d, k) is Some,
    ensures
        k <= spec_cut(d, k).unwrap() && spec_cut(d, k).unwrap() as int + 1 < d.len(),
    decreases d.len() - k,
{
    if k + 1 >= d.len() {
    } else if spec_jump(d[k as int].1, d[k as int + 1].1) {
    } else {
        lemma_cut_in_range(d, k + 1);
    }
}

/// The display label of a group: its leaf names joined with `+`.
pub open spec fn spec_label(bodies: Seq<Body>, leaves: Seq<usize>) -> Seq<char>
    decreases leaves.len(),
{
    if leaves.len() == 0 {
        Seq::empty()
    } else if leaves.len() == 1 {
        bodies[leaves[0] as int].name@
    } else {
        spec_label(bodies, leaves.drop_last()) + seq!['+'] + bodies[leaves.last() as int].name@
    }
}

/// The children of arena node `p` among the first `k` slots, ascending.
pub open spec fn spec_children_upto(ps: Seq<Option<usize>>, p: usize, k: int) -> Seq<usize>
    decreases k,
{
    if k <= 0 {
        Seq::empty()
    } else {
        spec_children_upto(ps, p, k - 1) + (if ps[k - 1] == Some(p) {
            seq![(k - 1) as usize]
        } else {
            Seq::empty()
        })
    }
}

/// The siblings of node `nx` under parent `p`: `p`'s other children,
/// ascending.
pub open spec fn spec_siblings_upto(ps: Seq<Option<usize>>, nx: usize, p: usize,
    k: int) -> Seq<usize>
    decreases k,
{
    if k <= 0 {
        Seq::empty()
    } else {
        spec_siblings_upto(ps, nx, p, k - 1) + (if ps[k - 1] == Some(p) && (k - 1) as usize
            != nx {
            seq![(k - 1) as usize]
        } else {
            Seq::empty()
        })
    }
}

/// The body a finished arena node presents before localization: a leaf keeps
/// its own body; a group becomes a synthetic barycenter body, locked to the
/// circular velocity around its sibling when it has exactly one.
pub open spec fn spec_unlocalized_seed(bodies: Seq<Body>, ns: Seq<SpecNode>,
    ps: Seq<Option<usize>>, i: int) -> crate::body::Seed {
    if ns[i].is_leaf {
        bodies[ns[i].leaves[0] as int].seed()
    } else {
        let siblings = match ps[i] {
            Some(p) => spec_siblings_upto(ps, i as usize, p, ps.len() as int),
            None => Seq::empty(),
        };
        crate::body::Seed {
            name: spec_label(bodies, ns[i].leaves),
            pos: Position::spec_zero_vec(),
            v: Velocity::spec_zero_vec(),
            mass: ns[i].mass,
            radius: Scalar::spec_zero(),
            computed_a: crate::vector::Acceleration::spec_zero_vec(),
            absolute_pos: ns[i].pos,
            absolute_vel: ns[i].vel,
            is_fixed: false,
            is_barycenter: true,
            lock_to_circular_velocity: siblings.len() == 1,
            lock_to_escape_velocity: false,
            selected_vel_lock: if siblings.len() == 1 {
                siblings[0]
            } else {
                0
            },
            color: (0, 70, 200),
            default_expanded: false,
        }
    }
}

/// The body a finished arena node presents after localization: position and
/// velocity become relative to the parent; the root keeps its absolute state
/// as its local state.
pub open spec fn spec_localized_seed(bodies: Seq<Body>, ns: Seq<SpecNode>, ps: Seq<Option<usize>>,
    i: int) -> crate::body::Seed {
    let u = spec_unlocalized_seed(bodies, ns, ps, i);
    match ps[i] {
        Some(p) => {
            let pu = spec_unlocalized_seed(bodies, ns, ps, p as int);
            crate::body::Seed {
                pos: u.absolute_pos.spec_minus(pu.absolute_pos),
                v: u.absolute_vel.spec_minus(pu.absolute_vel),
                ..u
            }
        },
        None => crate::body::Seed { pos: u.absolute_pos, v: u.absolute_vel, ..u },
    }
}

/// The group's display label, its leaf names joined with `+`.
#[verifier::loop_isolation(false)]
fn label_of(bodies: &Vec<Body>, leaves: &Vec<usize>) -> (s: String)
    requires
        forall|i: int| 0 <= i < leaves@.len() ==> (#[trigger] leaves@[i]) < bodies@.len(),
    ensures
        s@ == spec_label(bodies@, leaves@),
{
    let mut s = String::new();
    let mut k: usize = 0;
    while k < leaves.len()
        invariant
            k <= leaves@.len(),
            s@ == spec_label(bodies@, leaves@.take(k as int)),
        decreases leaves@.len() - k,
    {
        proof {
            reveal_strlit("+");
            assert(leaves@.take(k as int + 1).drop_last() =~= leaves@.take(k as int));
            assert(leaves@.take(k as int + 1).last() == leaves@[k as int]);
        }
        if k > 0 {
            s.append("+");
            proof {
                assert("+"@ =~= seq!['+']);
            }
        }
        s.append(bodies[leaves[k]].name.as_str());
        k = k + 1;
    }
    proof {
        assert(leaves@.take(leaves@.len() as int) =~= leaves@);
    }
    s
}

/// The other children of node `nx`'s parent `p`, ascending.
#[verifier::loop_isolation(false)]
fn siblings_of(ps: &Vec<Option<usize>>, nx: usize, p: usize) -> (sib: Vec<usize>)
    ensures
        sib@ == spec_siblings_upto(ps@, nx, p, ps@.len() as int),
{
    let mut sib: Vec<usize> = Vec::new();
    let mut k: usize = 0;
    while k < ps.len()
        invariant
            k <= ps@.len(),
            sib@ == spec_siblings_upto(ps@, nx, p, k as int),
        decreases ps@.len() - k,
    {
        let is_child = match ps[k] {
            Some(q) => q == p,
            None => false,
        };
        if is_child && k != nx {
            sib.push(k);
        }
        k = k + 1;
    }
    sib
}

/// Turn the arena into a flat body list: leaves keep their bodies, groups
/// become synthetic barycenter bodies.
#[verifier::loop_isolation(false)]
#[verifier::rlimit(100)]
fn map_to_bodies(bodies: &Vec<Body>, nodes: &Vec<HNode>, ps: &Vec<Option<usize>>) -> (r: Vec<Body>)
    requires
        forall|i: int| 0 <= i < bodies@.len() ==> (#[trigger] bodies@[i]).wf(),
        arena_wf(bodies@, views_of(nodes@), ps@),
        forall|i: int| 0 <= i < nodes@.len() && (#[trigger] nodes@[i])@.is_leaf ==> nodes@[i]@
            .leaves.len() == 1,
    ensures
        r@.len() == nodes@.len(),
        forall|i: int| 0 <= i < r@.len() ==> (#[trigger] r@[i]).seed() == spec_unlocalized_seed(
            bodies@, views_of(nodes@), ps@, i),
        forall|i: int| 0 <= i < r@.len() ==> (#[trigger] r@[i]).wf() && r@[i].trajectory@.len()
            == 0,
{
    let mut r: Vec<Body> = Vec::new();
    let mut i: usize = 0;
    while i < nodes.len()
        invariant
            i <= nodes@.len(),
            r@.len() == i,
            forall|j: int| 0 <= j < i ==> (#[trigger] r@[j]).seed() == spec_unlocalized_seed(
                bodies@, views_of(nodes@), ps@, j),
            forall|j: int| 0 <= j < i ==> (#[trigger] r@[j]).wf() && r@[j].trajectory@.len() == 0,
        decreases nodes@.len() - i,
    {
        proof {
            assert(nodes@[i as int]@ == views_of(nodes@)[i as int]);
        }
        if nodes[i].is_leaf {
            let b = bodies[nodes[i].leaves[0]].copy();
            proof {
                assert(b.seed() == spec_unlocalized_seed(bodies@, views_of(nodes@), ps@,
                    i as int));
            }
            r.push(b);
        } else {
            let mut b = crate::body::Body::blank();
            b.name = label_of(bodies, &nodes[i].leaves);
            b.absolute_pos = nodes[i].pos;
            b.absolute_vel = nodes[i].vel;
            b.mass = nodes[i].mass;
            b.is_barycenter = true;
            b.color = (0, 70, 200);
            let has_parent = ps[i].is_some();
            if has_parent {
                let p = match ps[i] {
                    Some(p) => p,
                    None => 0,
                };
                let sib = siblings_of(ps, i, p);
                if sib.len() == 1 {
                    b.lock_to_circular_velocity = true;
                    b.selected_vel_lock = sib[0];
                }
            }
            proof {
                let u = spec_unlocalized_seed(bodies@, views_of(nodes@), ps@, i as int);
                assert(b.seed().name == u.name);
                assert(b.seed().mass == u.mass);
                assert(b.seed().absolute_pos == u.absolute_pos);
                assert(b.seed().absolute_vel == u.absolute_vel);
                assert(b.seed().lock_to_circular_velocity == u.lock_to_circular_velocity);
                assert(b.seed().selected_vel_lock == u.selected_vel_lock);
                assert(b.seed().pos == u.pos);
                assert(b.seed().v == u.v);
                assert(b.seed().radius == u.radius);
                assert(b.seed().computed_a == u.computed_a);
                assert(b.seed().is_fixed == u.is_fixed);
                assert(b.seed().is_barycenter == u.is_barycenter);
                assert(b.seed().lock_to_escape_velocity == u.lock_to_escape_velocity);
                assert(b.seed().color == u.color);
                assert(b.seed().default_expanded == u.default_expanded);
                assert(b.seed() == u);
            }
            r.push(b);
        }
        i = i + 1;
    }
    r
}

/// Localize every body: position and velocity become relative to the parent's
/// absolute frame; the root keeps its absolute state.
#[verifier::loop_isolation(false)]
fn map_to_localized(mapped: Vec<Body>, ps: &Vec<Option<usize>>) -> (r: Vec<Body>)
    requires
        mapped@.len() == ps@.len(),
        forall|i: int| 0 <= i < ps@.len() && (#[trigger] ps@[i]) is Some ==> i
            < ps@[i].unwrap() < ps@.len(),
        forall|i: int| 0 <= i < mapped@.len() ==> (#[trigger] mapped@[i]).wf(),
        forall|i: int| 0 <= i < mapped@.len() ==> (#[trigger] mapped@[i]).trajectory@.len() == 0,
    ensures
        r@.len() == mapped@.len(),
        forall|i: int| 0 <= i < r@.len() ==> (#[trigger] r@[i]).seed() == (match ps@[i] {
            Some(p) => crate::body::Seed {
                pos: mapped@[i].absolute_pos.spec_minus(mapped@[p as int].absolute_pos),
                v: mapped@[i].absolute_vel.spec_minus(mapped@[p as int].absolute_vel),
                ..mapped@[i].seed()
            },
            None => crate::body::Seed {
                pos: mapped@[i].absolute_pos,
                v: mapped@[i].absolute_vel,
                ..mapped@[i].seed()
            },
        }),
        forall|i: int| 0 <= i < r@.len() ==> (#[trigger] r@[i]).wf() && r@[i].trajectory@.len()
            == 0,
{
    let mut r: Vec<Body> = Vec::new();
    let mut i: usize = 0;
    while i < mapped.len()
        invariant
            i <= mapped@.len(),
            r@.len() == i,
            forall|j: int| 0 <= j < i ==> (#[trigger] r@[j]).seed() == (match ps@[j] {
                Some(p) => crate::body::Seed {
                    pos: mapped@[j].absolute_pos.spec_minus(mapped@[p as int].absolute_pos),
                    v: mapped@[j].absolute_vel.spec_minus(mapped@[p as int].absolute_vel),
                    ..mapped@[j].seed()
                },
                None => crate::body::Seed {
                    pos: mapped@[j].absolute_pos,
                    v: mapped@[j].absolute_vel,
                    ..mapped@[j].seed()
                },
            }),
            forall|j: int| 0 <= j < i ==> (#[trigger] r@[j]).wf() && r@[j].trajectory@.len() == 0,
        decreases mapped@.len() - i,
    {
        let mut b = mapped[i].copy();
        match ps[i] {
            Some(p) => {
                b.pos = mapped[i].absolute_pos.minus(mapped[p].absolute_pos);
                b.v = mapped[i].absolute_vel.minus(mapped[p].absolute_vel);
            },
            None => {
                b.pos = Position::from(mapped[i].absolute_pos);
                b.v = Velocity::from(mapped[i].absolute_vel);
            },
        }
        r.push(b);
        i = i + 1;
    }
    r
}

/// The finished hierarchy: a flat body list in arena order (leaves first,
/// groups after, the root last) with one parent edge per non-root node.
#[derive(Debug)]
pub struct BodyTree {
    pub bodies: Vec<Body>,
    pub parent: Vec<Option<usize>>,
    pub root: usize,
}

impl BodyTree {
    /// Structural soundness: exactly one root (the last node), every parent
    /// above its child, every body well-formed.
    pub open spec fn wf(self) -> bool {
        &&& self.bodies@.len() == self.parent@.len()
        &&& self.bodies@.len() > 0
        &&& self.root == self.bodies@.len() - 1
        &&& forall|i: int| 0 <= i < self.parent@.len() ==> ((#[trigger] self.parent@[i]) is Some
            <==> i < self.parent@.len() - 1)
        &&& forall|i: int| 0 <= i < self.parent@.len() && (#[trigger] self.parent@[i])
            is Some ==> i < self.parent@[i].unwrap() < self.parent@.len()
        &&& forall|i: int| 0 <= i < self.bodies@.len() ==> (#[trigger] self.bodies@[i]).wf()
    }

    /// Every node's local state is exactly its absolute state minus its
    /// parent's; the root's local state is its absolute state.
    pub open spec fn localized(self) -> bool {
        &&& forall|i: int| 0 <= i < self.parent@.len() && (#[trigger] self.parent@[i])
            is Some ==> self.bodies@[i].pos == self.bodies@[i].absolute_pos.spec_minus(
            self.bodies@[self.parent@[i].unwrap() as int].absolute_pos)
            && self.bodies@[i].v == self.bodies@[i].absolute_vel.spec_minus(
            self.bodies@[self.parent@[i].unwrap() as int].absolute_vel)
        &&& forall|i: int| 0 <= i < self.parent@.len() && !((#[trigger] self.parent@[i])
            is Some) ==> self.bodies@[i].pos == self.bodies@[i].absolute_pos
            && self.bodies@[i].v == self.bodies@[i].absolute_vel
    }
}

/// Group bodies into a tree: leaves are the input bodies in order; each
/// synthetic group node carries the barycenter and combined mass of its
/// descendants; positions and velocities are localized to the parent frame.
/// Fails when grouping does not settle within ten levels or a group's mass
/// vanishes.
#[verifier::loop_isolation(false)]
#[verifier::rlimit(100)]
pub fn build_hierarchy(bodies: &Vec<Body>) -> (r: Result<BodyTree, HierarchyError>)
    requires
        bodies@.len() >= 1,
        forall|i: int| 0 <= i < bodies@.len() ==> (#[trigger] bodies@[i]).wf(),
    ensures
        (r is Ok) == (spec_build_arena(bodies@) is Ok),
        r matches Err(e) ==> spec_build_arena(bodies@) == Err::<(Seq<SpecNode>,
        Seq<Option<usize>>), HierarchyError>(e),
        r matches Ok(t) ==> {
            let a = spec_build_arena(bodies@).unwrap();
            &&& t.wf()
            &&& t.localized()
            &&& t.parent@ == a.1
            &&& t.bodies@.len() == a.0.len()
            &&& t.bodies@.len() >= bodies@.len()
            &&& forall|i: int| 0 <= i < t.bodies@.len() ==> (#[trigger] t.bodies@[i]).seed()
                == spec_localized_seed(bodies@, a.0, a.1, i)
            &&& forall|i: int| 0 <= i < t.bodies@.len() ==> (
            #[trigger] t.bodies@[i]).trajectory@.len() == 0
            &&& forall|i: int| 0 <= i < bodies@.len() ==> !(
            #[trigger] t.bodies@[i]).is_barycenter == !bodies@[i].is_barycenter
                && t.bodies@[i].seed() == (crate::body::Seed {
                pos: bodies@[i].absolute_pos.spec_minus(match a.1[i] {
                    Some(p) => spec_unlocalized_seed(bodies@, a.0, a.1, p as int).absolute_pos,
                    None => Position::spec_zero_vec(),
                }),
                v: bodies@[i].absolute_vel.spec_minus(match a.1[i] {
                    Some(p) => spec_unlocalized_seed(bodies@, a.0, a.1, p as int).absolute_vel,
                    None => Velocity::spec_zero_vec(),
                }),
                ..bodies@[i].seed()
            }) || t.bodies@[i].seed() == (crate::body::Seed {
                pos: bodies@[i].absolute_pos,
                v: bodies@[i].absolute_vel,
                ..bodies@[i].seed()
            })
        },
{
    let (nodes, ps) = match build_arena(bodies) {
        Ok(a) => a,
        Err(e) => {
            return Err(e);
        },
    };
    proof {
        assert forall|i: int| 0 <= i < nodes@.len() && (#[trigger] nodes@[i])@.is_leaf implies
            nodes@[i]@.leaves.len() == 1 by {
            if i < bodies@.len() {
                assert(nodes@[i]@ == spec_leaf_nodes(bodies@)[i]);
            }
        }
    }
    let mapped = map_to_bodies(bodies, &nodes, &ps);
    let localized = map_to_localized(mapped, &ps);
    let root = nodes.len() - 1;
    let tree = BodyTree { bodies: localized, parent: ps, root };
    proof {
        let a = spec_build_arena(bodies@).unwrap();
        assert(views_of(nodes@) == a.0);
        assert(tree.parent@ == a.1);
        assert(a.0.len() == nodes@.len());
        assert forall|i: int| 0 <= i < tree.bodies@.len() implies (
        #[trigger] tree.bodies@[i]).seed() == spec_localized_seed(bodies@, a.0, a.1, i) by {
            assert(tree.bodies@[i].seed() == spec_localized_seed(bodies@, views_of(nodes@), ps@,
                i));
        }
        assert(tree.wf());
        assert forall|i: int| 0 <= i < tree.parent@.len() && (#[trigger] tree.parent@[i])
            is Some implies tree.bodies@[i].pos == tree.bodies@[i].absolute_pos.spec_minus(
            tree.bodies@[tree.parent@[i].unwrap() as int].absolute_pos)
            && tree.bodies@[i].v == tree.bodies@[i].absolute_vel.spec_minus(
            tree.bodies@[tree.parent@[i].unwrap() as int].absolute_vel) by {
            let p = tree.parent@[i].unwrap() as int;
            assert(tree.bodies@[i].seed() == spec_localized_seed(bodies@, a.0, a.1, i));
            assert(tree.bodies@[p].seed() == spec_localized_seed(bodies@, a.0, a.1, p));
            assert(tree.bodies@[p].absolute_pos == spec_unlocalized_seed(bodies@, a.0, a.1,
                p).absolute_pos);
        }
        assert forall|i: int| 0 <= i < bodies@.len() implies (#[trigger] tree.bodies@[i]).seed()
            == (crate::body::Seed {
            pos: bodies@[i].absolute_pos.spec_minus(match a.1[i] {
                Some(p) => spec_unlocalized_seed(bodies@, a.0, a.1, p as int).absolute_pos,
                None => Position::spec_zero_vec(),
            }),
            v: bodies@[i].absolute_vel.spec_minus(match a.1[i] {
                Some(p) => spec_unlocalized_seed(bodies@, a.0, a.1, p as int).absolute_vel,
                None => Velocity::spec_zero_vec(),
            }),
            ..bodies@[i].seed()
        }) || tree.bodies@[i].seed() == (crate::body::Seed {
            pos: bodies@[i].absolute_pos,
            v: bodies@[i].absolute_vel,
            ..bodies@[i].seed()
        }) by {
            assert(a.0[i] == spec_leaf_nodes(bodies@)[i]);
            assert(a.0[i].is_leaf && a.0[i].leaves[0] == i as usize);
            assert(spec_unlocalized_seed(bodies@, a.0, a.1, i) == bodies@[i].seed());
        }
    }
    Ok(tree)
}

} // verus!
