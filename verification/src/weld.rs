use std::collections::HashMap;

use vstd::prelude::*;

use crate::ids::{lemma_prefix_set, pushed, EntityId};

verus! {

/// Disjoint sets of entities, by parent links with path compression. Each entity's
/// representative is the root its parent links lead to.
pub struct UnionFind {
    parents: HashMap<EntityId, EntityId>,
    /// The root each entity's parent links lead to.
    rep: Ghost<Map<EntityId, EntityId>>,
    /// Grows strictly along parent links; bounds the walk to the root.
    rank: Ghost<Map<EntityId, nat>>,
    max_rank: Ghost<nat>,
}

/// The facts about one entity `x` that keep the parent links a forest: the links stay in
/// the domain, the representative is a root shared along each link, and the rank grows
/// along each link and up to the representative.
pub open spec fn link_ok(
    p: Map<EntityId, EntityId>,
    r: Map<EntityId, EntityId>,
    k: Map<EntityId, nat>,
    m: nat,
    x: EntityId,
) -> bool {
    &&& p.contains_key(p[x])
    &&& p.contains_key(r[x])
    &&& p[r[x]] == r[x]
    &&& r[p[x]] == r[x]
    &&& (p[x] != x ==> k[x] < k[p[x]])
    &&& (p[x] == x ==> r[x] == x)
    &&& (r[x] != x ==> k[x] < k[r[x]])
    &&& k[x] <= m
}

/// Every entity satisfies `link_ok`.
pub open spec fn forest_ok(
    p: Map<EntityId, EntityId>,
    r: Map<EntityId, EntityId>,
    k: Map<EntityId, nat>,
    m: nat,
) -> bool {
    &&& r.dom() == p.dom()
    &&& k.dom() == p.dom()
    &&& forall|x: EntityId| #![trigger link_ok(p, r, k, m, x)] p.contains_key(x) ==> link_ok(p, r, k, m, x)
}

impl UnionFind {
    /// The entities the structure holds.
    pub closed spec fn domain(&self) -> Set<EntityId> {
        self.parents@.dom()
    }

    /// The representative of each entity: two entities are in one set exactly when their
    /// representatives agree.
    pub closed spec fn reps(&self) -> Map<EntityId, EntityId> {
        self.rep@
    }

    pub closed spec fn wf(&self) -> bool {
        forest_ok(self.parents@, self.rep@, self.rank@, self.max_rank@)
    }

    /// Each of `keys` in a set of its own.
    pub fn new(keys: &[EntityId]) -> (u: Self)
        ensures
            u.wf(),
            u.domain() == keys@.to_set(),
            forall|x: EntityId| #[trigger] u.domain().contains(x) ==> u.reps()[x] == x,
    {
        broadcast use vstd::std_specs::hash::group_hash_axioms;

        let mut parents: HashMap<EntityId, EntityId> = HashMap::new();
        let mut i: usize = 0;
        while i < keys.len()
            invariant
                0 <= i <= keys@.len(),
                parents@.dom() == keys@.subrange(0, i as int).to_set(),
                forall|x: EntityId| #[trigger] parents@.contains_key(x) ==> parents@[x] == x,
            decreases keys@.len() - i,
        {
            parents.insert(keys[i], keys[i]);
            i = i + 1;
            proof {
                lemma_prefix_set(keys@, i - 1);
            }
        }
        proof {
            assert(keys@.subrange(0, keys@.len() as int) =~= keys@);
        }
        let ghost dom = parents@.dom();
        let u = UnionFind {
            parents,
            rep: Ghost(Map::new(|x: EntityId| dom.contains(x), |x: EntityId| x)),
            rank: Ghost(Map::new(|x: EntityId| dom.contains(x), |x: EntityId| 0nat)),
            max_rank: Ghost(0nat),
        };
        proof {
            assert(u.rep@.dom() =~= dom);
            assert(u.rank@.dom() =~= dom);
        }
        u
    }

    /// Whether `x` is held.
    pub fn contains(&self, x: EntityId) -> (r: bool)
        ensures
            r == self.domain().contains(x),
    {
        broadcast use vstd::std_specs::hash::group_hash_axioms;

        self.parents.contains_key(&x)
    }

    /// The representative of `x`; the links walked are then pointed straight at it.
    fn root(&mut self, x: EntityId) -> (r: EntityId)
        requires
            old(self).wf(),
            old(self).domain().contains(x),
        ensures
            final(self).wf(),
            final(self).domain() == old(self).domain(),
            final(self).reps() == old(self).reps(),
            final(self).rank@ == old(self).rank@,
            final(self).max_rank@ == old(self).max_rank@,
            r == old(self).reps()[x],
    {
        broadcast use vstd::std_specs::hash::group_hash_axioms;

        let ghost rm = self.rep@;
        let ghost km = self.rank@;
        let ghost mm = self.max_rank@;
        let mut cur: EntityId = x;
        loop
            invariant
                forest_ok(self.parents@, rm, km, mm),
                *self == *old(self),
                self.parents@.contains_key(cur),
                rm[cur] == rm[x],
            ensures
                self.parents@.contains_key(cur),
                self.parents@[cur] == cur,
                rm[cur] == rm[x],
                rm[cur] == cur,
            decreases mm - km[cur],
        {
            let p: EntityId = *self.parents.get(&cur).unwrap();
            proof {
                assert(link_ok(self.parents@, rm, km, mm, cur));
                assert(link_ok(self.parents@, rm, km, mm, p));
            }
            if p == cur {
                break;
            }
            cur = p;
        }
        let r = cur;
        let mut y: EntityId = x;
        loop
            invariant
                forest_ok(self.parents@, rm, km, mm),
                self.rep@ == rm,
                self.rank@ == km,
                self.max_rank@ == mm,
                self.parents@.dom() == old(self).parents@.dom(),
                self.parents@.contains_key(y),
                self.parents@.contains_key(r),
                rm[y] == r,
                rm[r] == r,
            ensures
                forest_ok(self.parents@, rm, km, mm),
                self.rep@ == rm,
                self.rank@ == km,
                self.max_rank@ == mm,
                self.parents@.dom() == old(self).parents@.dom(),
            decreases mm - km[y],
        {
            let p: EntityId = *self.parents.get(&y).unwrap();
            let ghost before = self.parents@;
            proof {
                assert(link_ok(before, rm, km, mm, y));
                assert(link_ok(before, rm, km, mm, r));
                assert(link_ok(before, rm, km, mm, p));
            }
            if p == y {
                break;
            }
            self.parents.insert(y, r);
            proof {
                let after = self.parents@;
                assert(after.dom() =~= before.dom());
                assert forall|z: EntityId| #![trigger link_ok(after, rm, km, mm, z)] after.contains_key(z) implies link_ok(after, rm, km, mm, z) by {
                    assert(link_ok(before, rm, km, mm, z));
                    if z != y && rm[z] == y {
                        assert(before[y] == y);
                    }
                }
            }
            y = p;
        }
        r
    }

    /// The representative of `x`.
    pub fn find(&mut self, x: EntityId) -> (r: EntityId)
        requires
            old(self).wf(),
            old(self).domain().contains(x),
        ensures
            final(self).wf(),
            final(self).domain() == old(self).domain(),
            final(self).reps() == old(self).reps(),
            r == old(self).reps()[x],
    {
        self.root(x)
    }

    /// Puts `a` and `b` in one set: the set of `b` joins the set of `a`.
    pub fn join(&mut self, a: EntityId, b: EntityId)
        requires
            old(self).wf(),
            old(self).domain().contains(a),
            old(self).domain().contains(b),
        ensures
            final(self).wf(),
            final(self).domain() == old(self).domain(),
            forall|x: EntityId| #[trigger] final(self).domain().contains(x) ==> final(self).reps()[x]
                == if old(self).reps()[x] == old(self).reps()[b] {
                old(self).reps()[a]
            } else {
                old(self).reps()[x]
            },
    {
        broadcast use vstd::std_specs::hash::group_hash_axioms;

        let ra = self.root(a);
        let rb = self.root(b);
        if ra != rb {
            let ghost p = self.parents@;
            let ghost r = self.rep@;
            let ghost k = self.rank@;
            let ghost m = self.max_rank@;
            let ghost dom = p.dom();
            proof {
                assert(link_ok(p, r, k, m, a));
                assert(link_ok(p, r, k, m, b));
                assert(link_ok(p, r, k, m, ra));
                assert(link_ok(p, r, k, m, rb));
            }
            let ghost nk: nat = if k[ra] > k[rb] {
                k[ra]
            } else {
                k[rb] + 1
            };
            let ghost nm: nat = if nk > m {
                nk
            } else {
                m
            };
            let ghost r2 = Map::new(
                |x: EntityId| dom.contains(x),
                |x: EntityId| if r[x] == rb { ra } else { r[x] },
            );
            let ghost k2 = k.insert(ra, nk);
            self.parents.insert(rb, ra);
            self.rep = Ghost(r2);
            self.rank = Ghost(k2);
            self.max_rank = Ghost(nm);
            proof {
                let p2 = self.parents@;
                assert(p2.dom() =~= dom);
                assert(r2.dom() =~= dom);
                assert(k2.dom() =~= dom);
                assert forall|z: EntityId| #![trigger link_ok(p2, r2, k2, nm, z)] p2.contains_key(z) implies link_ok(p2, r2, k2, nm, z) by {
                    assert(link_ok(p, r, k, m, z));
                    assert(link_ok(p, r, k, m, p[z]));
                }
            }
        }
    }
}

/// Keys never decrease along `s`.
pub open spec fn sorted_by_key(s: Seq<(u32, EntityId)>) -> bool {
    forall|i: int, j: int| 0 <= i < j < s.len() ==> s[i].0 <= s[j].0
}

/// `items` ordered by key; items with equal keys keep their order.
pub fn sort_by_index(items: &[(u32, EntityId)]) -> (r: Vec<(u32, EntityId)>)
    ensures
        sorted_by_key(r@),
        r@.len() == items@.len(),
        forall|x: (u32, EntityId)| #[trigger] r@.contains(x) <==> items@.contains(x),
        items@.no_duplicates() ==> r@.no_duplicates(),
{
    let mut out: Vec<(u32, EntityId)> = Vec::new();
    let mut i: usize = 0;
    while i < items.len()
        invariant
            0 <= i <= items@.len(),
            sorted_by_key(out@),
            out@.len() == i,
            items@.no_duplicates() ==> out@.no_duplicates(),
            forall|x: (u32, EntityId)| #[trigger] out@.contains(x) <==> items@.subrange(0, i as int).contains(x),
        decreases items@.len() - i,
    {
        let item = items[i];
        let mut pos: usize = 0;
        while pos < out.len() && out[pos].0 <= item.0
            invariant
                0 <= pos <= out@.len(),
                forall|j: int| 0 <= j < pos ==> out@[j].0 <= item.0,
            decreases out@.len() - pos,
        {
            pos = pos + 1;
        }
        let ghost before = out@;
        proof {
            assert forall|j: int| pos <= j < before.len() implies before[j].0 > item.0 by {
                if pos < before.len() {
                    assert(before[pos as int].0 > item.0);
                    assert(before[pos as int].0 <= before[j].0);
                }
            }
        }
        out.insert(pos, item);
        proof {
            assert(out@ =~= before.insert(pos as int, item));
            if items@.no_duplicates() {
                assert(!before.contains(item)) by {
                    if before.contains(item) {
                        let k = choose|k: int| 0 <= k < i && #[trigger] items@.subrange(0, i as int)[k] == item;
                        assert(items@[k] == items@[i as int]);
                    }
                }
                assert forall|a: int, b: int| 0 <= a < out@.len() && 0 <= b < out@.len() && a != b implies out@[a] != out@[b] by {
                    if a == pos {
                        if b < pos {
                            assert(before[b] == out@[b]);
                        } else {
                            assert(before[b - 1] == out@[b]);
                        }
                    } else if b == pos {
                        if a < pos {
                            assert(before[a] == out@[a]);
                        } else {
                            assert(before[a - 1] == out@[a]);
                        }
                    } else {
                        let a2 = if a < pos { a } else { a - 1 };
                        let b2 = if b < pos { b } else { b - 1 };
                        assert(out@[a] == before[a2]);
                        assert(out@[b] == before[b2]);
                    }
                }
            }
            assert forall|a: int, b: int| 0 <= a < b < out@.len() implies out@[a].0 <= out@[b].0 by {
                if a < pos && b < pos {
                } else if a < pos && b == pos {
                } else if a < pos && b > pos {
                    assert(out@[b] == before[b - 1]);
                } else if a == pos {
                    assert(out@[b] == before[b - 1]);
                } else {
                    assert(out@[a] == before[a - 1]);
                    assert(out@[b] == before[b - 1]);
                }
            }
            assert forall|x: (u32, EntityId)| #[trigger] out@.contains(x) <==> items@.subrange(0, i + 1).contains(x) by {
                assert(items@.subrange(0, i + 1) =~= items@.subrange(0, i as int).push(item));
                if out@.contains(x) {
                    let j = choose|j: int| 0 <= j < out@.len() && #[trigger] out@[j] == x;
                    if j < pos {
                        assert(before[j] == x);
                        assert(before.contains(x));
                    } else if j > pos {
                        assert(before[j - 1] == x);
                        assert(before.contains(x));
                    }
                    if x != item {
                        let k = choose|k: int| 0 <= k < i && #[trigger] items@.subrange(0, i as int)[k] == x;
                        assert(items@.subrange(0, i + 1)[k] == x);
                    } else {
                        assert(items@.subrange(0, i + 1)[i as int] == x);
                    }
                }
                if items@.subrange(0, i + 1).contains(x) {
                    let k = choose|k: int| 0 <= k < i + 1 && #[trigger] items@.subrange(0, i + 1)[k] == x;
                    if k < i {
                        assert(items@.subrange(0, i as int)[k] == x);
                        assert(before.contains(x));
                        let j = choose|j: int| 0 <= j < before.len() && #[trigger] before[j] == x;
                        if j < pos {
                            assert(out@[j] == x);
                        } else {
                            assert(out@[j + 1] == x);
                        }
                    } else {
                        assert(out@[pos as int] == x);
                    }
                }
            }
        }
        i = i + 1;
    }
    proof {
        assert(items@.subrange(0, items@.len() as int) =~= items@);
    }
    out
}

/// A fix joint as the weld graph sees it: the joint entity and its two geometries
/// (`None` for an end in the sky).
pub type WeldEdge = (EntityId, [Option<EntityId>; 2]);

/// Representatives after welding the geometries of `dom` along `edges` in order: a joint
/// between two geometries of `dom` merges the set of its second geometry into the set of
/// its first; other joints change nothing.
pub open spec fn welded_reps(dom: Set<EntityId>, edges: Seq<WeldEdge>) -> Map<EntityId, EntityId>
    decreases edges.len(),
{
    if edges.len() == 0 {
        Map::new(|x: EntityId| dom.contains(x), |x: EntityId| x)
    } else {
        let r = welded_reps(dom, edges.drop_last());
        let g = edges.last().1;
        if g[0] is Some && g[1] is Some && dom.contains(g[0]->0) && dom.contains(g[1]->0) {
            let (a, b) = (g[0]->0, g[1]->0);
            Map::new(|x: EntityId| dom.contains(x), |x: EntityId| if r[x] == r[b] { r[a] } else { r[x] })
        } else {
            r
        }
    }
}

/// A labelling of entities respects the welds when the two geometries of every joint between
/// geometries of `dom` get the same label.
pub open spec fn respects_welds(f: spec_fn(EntityId) -> EntityId, dom: Set<EntityId>, edges: Seq<WeldEdge>) -> bool {
    forall|i: int| #![trigger edges[i]] 0 <= i < edges.len() && edges[i].1[0] is Some && edges[i].1[1] is Some
        && dom.contains(edges[i].1[0]->0) && dom.contains(edges[i].1[1]->0)
        ==> f(edges[i].1[0]->0) == f(edges[i].1[1]->0)
}

proof fn lemma_welded_reps_dom(dom: Set<EntityId>, edges: Seq<WeldEdge>)
    ensures
        welded_reps(dom, edges).dom() == dom,
        forall|x: EntityId| #[trigger] dom.contains(x) ==> dom.contains(welded_reps(dom, edges)[x]),
    decreases edges.len(),
{
    if edges.len() > 0 {
        lemma_welded_reps_dom(dom, edges.drop_last());
    }
    assert(welded_reps(dom, edges).dom() =~= dom);
}

/// Law: welding groups exactly the connected geometries. Two geometries share a
/// representative after welding along `edges` exactly when every labelling that respects
/// the welds gives them the same label, that is, when a chain of fix joints links them.
pub proof fn lemma_welded_iff_linked(dom: Set<EntityId>, edges: Seq<WeldEdge>, x: EntityId, y: EntityId)
    requires
        dom.contains(x),
        dom.contains(y),
    ensures
        (welded_reps(dom, edges)[x] == welded_reps(dom, edges)[y]) <==> (forall|f: spec_fn(EntityId) -> EntityId|
            respects_welds(f, dom, edges) ==> #[trigger] f(x) == f(y)),
    decreases edges.len(),
{
    lemma_welded_reps_dom(dom, edges);
    let r = welded_reps(dom, edges);
    lemma_reps_respect_welds(dom, edges);
    if r[x] == r[y] {
        assert forall|f: spec_fn(EntityId) -> EntityId| respects_welds(f, dom, edges) implies #[trigger] f(x) == f(y) by {
            lemma_respecting_labels_agree_on_reps(dom, edges, f, x, y);
        }
    } else {
        let f = |z: EntityId| r[z];
        assert(respects_welds(f, dom, edges));
        assert(f(x) != f(y));
    }
}

proof fn lemma_reps_respect_welds(dom: Set<EntityId>, edges: Seq<WeldEdge>)
    ensures
        respects_welds(|z: EntityId| welded_reps(dom, edges)[z], dom, edges),
    decreases edges.len(),
{
    if edges.len() > 0 {
        let prev = edges.drop_last();
        lemma_reps_respect_welds(dom, prev);
        lemma_welded_reps_dom(dom, prev);
        let r = welded_reps(dom, prev);
        let r2 = welded_reps(dom, edges);
        assert forall|i: int| #![trigger edges[i]] 0 <= i < edges.len() && edges[i].1[0] is Some && edges[i].1[1] is Some
            && dom.contains(edges[i].1[0]->0) && dom.contains(edges[i].1[1]->0)
            implies r2[edges[i].1[0]->0] == r2[edges[i].1[1]->0] by {
            if i < edges.len() - 1 {
                assert(prev[i] == edges[i]);
                assert(r[edges[i].1[0]->0] == r[edges[i].1[1]->0]);
            }
        }
    }
}

proof fn lemma_respecting_labels_agree_on_reps(
    dom: Set<EntityId>,
    edges: Seq<WeldEdge>,
    f: spec_fn(EntityId) -> EntityId,
    x: EntityId,
    y: EntityId,
)
    requires
        dom.contains(x),
        dom.contains(y),
        respects_welds(f, dom, edges),
        welded_reps(dom, edges)[x] == welded_reps(dom, edges)[y],
    ensures
        f(x) == f(y),
    decreases edges.len(),
{
    if edges.len() > 0 {
        let prev = edges.drop_last();
        lemma_welded_reps_dom(dom, prev);
        let r = welded_reps(dom, prev);
        assert(respects_welds(f, dom, prev)) by {
            assert forall|i: int| #![trigger prev[i]] 0 <= i < prev.len() && prev[i].1[0] is Some && prev[i].1[1] is Some
                && dom.contains(prev[i].1[0]->0) && dom.contains(prev[i].1[1]->0)
                implies f(prev[i].1[0]->0) == f(prev[i].1[1]->0) by {
                assert(edges[i] == prev[i]);
            }
        }
        let g = edges.last().1;
        if g[0] is Some && g[1] is Some && dom.contains(g[0]->0) && dom.contains(g[1]->0) {
            let (a, b) = (g[0]->0, g[1]->0);
            assert(edges[edges.len() - 1] == edges.last());
            assert(f(a) == f(b));
            if r[x] == r[y] {
                lemma_respecting_labels_agree_on_reps(dom, prev, f, x, y);
            } else if r[x] == r[b] {
                lemma_respecting_labels_agree_on_reps(dom, prev, f, x, b);
                if r[y] == r[b] {
                } else {
                    lemma_respecting_labels_agree_on_reps(dom, prev, f, y, a);
                }
            } else {
                lemma_respecting_labels_agree_on_reps(dom, prev, f, y, b);
                lemma_respecting_labels_agree_on_reps(dom, prev, f, x, a);
            }
        } else {
            lemma_respecting_labels_agree_on_reps(dom, prev, f, x, y);
        }
    }
}

/// A geometry as the weld rebuild sees it: its entity and entity index, the body its
/// collider is attached to when it has a collider link and a position (only such
/// geometries are regrouped), and whether it is a plane.
#[derive(Clone, Copy, Debug)]
pub struct WeldGeometry {
    pub entity: EntityId,
    pub index: u32,
    pub body: Option<EntityId>,
    pub is_plane: bool,
}

/// The body a welded group is attached to.
#[derive(Clone, Copy, Debug, PartialEq, Eq, Structural)]
pub enum BodyChoice {
    /// The static sky body.
    Sky,
    /// An existing body, reused.
    Existing(EntityId),
    /// A new dynamic body.
    New,
}

/// One group of welded geometries.
pub struct WeldComponent {
    /// The group's representative geometry.
    pub root: EntityId,
    /// The group's geometries, by entity index.
    pub members: Vec<EntityId>,
    /// Welded to the sky, or holding a plane.
    pub is_static: bool,
    pub body: BodyChoice,
}

/// The entities of the geometries.
pub open spec fn geometry_set(gs: Seq<WeldGeometry>) -> Set<EntityId> {
    gs.map_values(|g: WeldGeometry| g.entity).to_set()
}

/// No entity occurs twice among the geometries.
pub open spec fn distinct_geometries(gs: Seq<WeldGeometry>) -> bool {
    forall|i: int, j: int| 0 <= i < j < gs.len() ==> gs[i].entity != gs[j].entity
}

/// Whether `e` is a geometry with a collider link and a position.
pub open spec fn has_state(gs: Seq<WeldGeometry>, e: EntityId) -> bool {
    exists|i: int| 0 <= i < gs.len() && #[trigger] gs[i].entity == e && gs[i].body is Some
}

/// The geometry entry of `e`.
pub open spec fn geometry_of(gs: Seq<WeldGeometry>, e: EntityId) -> WeldGeometry {
    gs[choose|i: int| 0 <= i < gs.len() && #[trigger] gs[i].entity == e]
}

/// Whether a joint welds `e` to the sky.
pub open spec fn welds_to_sky(g: [Option<EntityId>; 2], e: EntityId) -> bool {
    (g[0] == Some(e) && g[1] is None) || (g[0] is None && g[1] == Some(e))
}

/// Whether `e` is a geometry of `dom` welded to the sky by some joint of `edges`.
pub open spec fn sky_welded(dom: Set<EntityId>, edges: Seq<WeldEdge>, e: EntityId) -> bool {
    dom.contains(e) && exists|i: int| 0 <= i < edges.len() && welds_to_sky(#[trigger] edges[i].1, e)
}

/// The first of `bodies` that is neither the sky nor already used.
pub open spec fn first_free_body(bodies: Seq<EntityId>, used: Set<EntityId>, sky: EntityId) -> Option<EntityId>
    decreases bodies.len(),
{
    if bodies.len() == 0 {
        None
    } else if bodies[0] != sky && !used.contains(bodies[0]) {
        Some(bodies[0])
    } else {
        first_free_body(bodies.drop_first(), used, sky)
    }
}

/// The existing bodies taken by the first `n` groups.
pub open spec fn bodies_taken(comps: Seq<BodyChoice>, n: int) -> Set<EntityId>
    decreases n,
{
    if n <= 0 {
        Set::empty()
    } else {
        match comps[n - 1] {
            BodyChoice::Existing(b) => bodies_taken(comps, n - 1).insert(b),
            _ => bodies_taken(comps, n - 1),
        }
    }
}

proof fn lemma_geometry_of(gs: Seq<WeldGeometry>, i: int)
    requires
        distinct_geometries(gs),
        0 <= i < gs.len(),
    ensures
        geometry_of(gs, gs[i].entity) == gs[i],
{
    let j = choose|j: int| 0 <= j < gs.len() && #[trigger] gs[j].entity == gs[i].entity;
    assert(gs[j].entity == gs[i].entity);
    if i != j {
        if i < j {
            assert(gs[i].entity != gs[j].entity);
        } else {
            assert(gs[j].entity != gs[i].entity);
        }
    }
}

proof fn lemma_geometry_set(gs: Seq<WeldGeometry>, e: EntityId)
    ensures
        geometry_set(gs).contains(e) <==> exists|i: int| 0 <= i < gs.len() && #[trigger] gs[i].entity == e,
{
    let m = gs.map_values(|g: WeldGeometry| g.entity);
    if geometry_set(gs).contains(e) {
        let i = choose|i: int| 0 <= i < m.len() && m[i] == e;
        assert(gs[i].entity == e);
    }
    if exists|i: int| 0 <= i < gs.len() && #[trigger] gs[i].entity == e {
        let i = choose|i: int| 0 <= i < gs.len() && #[trigger] gs[i].entity == e;
        assert(m[i] == e);
    }
}

/// The entry of geometry `e`.
fn geometry_entry(gs: &[WeldGeometry], e: EntityId) -> (r: WeldGeometry)
    requires
        distinct_geometries(gs@),
        geometry_set(gs@).contains(e),
    ensures
        r == geometry_of(gs@, e),
{
    proof {
        lemma_geometry_set(gs@, e);
    }
    let mut i: usize = 0;
    while i < gs.len()
        invariant
            0 <= i <= gs@.len(),
            distinct_geometries(gs@),
            exists|j: int| i <= j < gs@.len() && #[trigger] gs@[j].entity == e,
        decreases gs@.len() - i,
    {
        if gs[i].entity == e {
            proof {
                lemma_geometry_of(gs@, i as int);
            }
            return gs[i];
        }
        i = i + 1;
    }
    proof {
        assert(false);
    }
    gs[0]
}

proof fn lemma_join_step(
    dom: Set<EntityId>,
    prev: Seq<WeldEdge>,
    edge: WeldEdge,
    before: Map<EntityId, EntityId>,
    after: Map<EntityId, EntityId>,
)
    requires
        before == welded_reps(dom, prev),
        edge.1[0] is Some && edge.1[1] is Some,
        dom.contains(edge.1[0]->0) && dom.contains(edge.1[1]->0),
        after.dom() == dom,
        forall|x: EntityId| #[trigger] dom.contains(x) ==> after[x] == if before[x] == before[edge.1[1]->0] {
            before[edge.1[0]->0]
        } else {
            before[x]
        },
    ensures
        after == welded_reps(dom, prev.push(edge)),
{
    let next = prev.push(edge);
    assert(next.drop_last() =~= prev);
    assert(after =~= welded_reps(dom, next));
}

proof fn lemma_no_join_step(dom: Set<EntityId>, prev: Seq<WeldEdge>, edge: WeldEdge)
    requires
        !(edge.1[0] is Some && edge.1[1] is Some && dom.contains(edge.1[0]->0) && dom.contains(
            edge.1[1]->0,
        )),
    ensures
        welded_reps(dom, prev.push(edge)) == welded_reps(dom, prev),
{
    assert(prev.push(edge).drop_last() =~= prev);
}

proof fn lemma_push_contains(s: Seq<EntityId>, v: EntityId, e: EntityId)
    ensures
        s.push(v).contains(e) <==> s.contains(e) || e == v,
{
    if s.push(v).contains(e) && e != v {
        let i = choose|i: int| 0 <= i < s.push(v).len() && s.push(v)[i] == e;
        assert(s[i] == e);
    }
    if s.contains(e) {
        let i = choose|i: int| 0 <= i < s.len() && s[i] == e;
        assert(s.push(v)[i] == e);
    }
    if e == v {
        assert(s.push(v)[s.len() as int] == e);
    }
}

proof fn lemma_sky_welded_push(dom: Set<EntityId>, prev: Seq<WeldEdge>, edge: WeldEdge, e: EntityId)
    ensures
        sky_welded(dom, prev.push(edge), e) <==> sky_welded(dom, prev, e) || (dom.contains(e)
            && welds_to_sky(edge.1, e)),
{
    let next = prev.push(edge);
    if sky_welded(dom, next, e) {
        let j = choose|j: int| 0 <= j < next.len() && welds_to_sky(#[trigger] next[j].1, e);
        if j < prev.len() {
            assert(prev[j] == next[j]);
        }
    }
    if sky_welded(dom, prev, e) {
        let j = choose|j: int| 0 <= j < prev.len() && welds_to_sky(#[trigger] prev[j].1, e);
        assert(next[j] == prev[j]);
    }
    if dom.contains(e) && welds_to_sky(edge.1, e) {
        assert(next[prev.len() as int] == edge);
    }
}

/// The geometries welded along `edges`, and the geometries welded to the sky.
fn weld_union(gs: &[WeldGeometry], edges: &[WeldEdge]) -> (r: (UnionFind, Vec<EntityId>))
    ensures
        r.0.wf(),
        r.0.domain() == geometry_set(gs@),
        r.0.reps() == welded_reps(geometry_set(gs@), edges@),
        forall|e: EntityId| #[trigger] r.1@.contains(e) <==> sky_welded(geometry_set(gs@), edges@, e),
{
    let ghost dom = geometry_set(gs@);
    let mut keys: Vec<EntityId> = Vec::new();
    let mut i: usize = 0;
    while i < gs.len()
        invariant
            0 <= i <= gs@.len(),
            keys@ == gs@.subrange(0, i as int).map_values(|g: WeldGeometry| g.entity),
        decreases gs@.len() - i,
    {
        keys.push(gs[i].entity);
        i = i + 1;
        proof {
            assert(gs@.subrange(0, i as int).map_values(|g: WeldGeometry| g.entity) =~= gs@.subrange(0, i - 1).map_values(
                |g: WeldGeometry| g.entity,
            ).push(gs@[i - 1].entity));
        }
    }
    proof {
        assert(gs@.subrange(0, gs@.len() as int) =~= gs@);
    }
    let mut uf = UnionFind::new(keys.as_slice());
    let mut sky: Vec<EntityId> = Vec::new();
    proof {
        lemma_welded_reps_dom(dom, edges@.subrange(0, 0));
        assert(uf.reps() =~= welded_reps(dom, edges@.subrange(0, 0)));
    }
    let mut k: usize = 0;
    while k < edges.len()
        invariant
            0 <= k <= edges@.len(),
            uf.wf(),
            uf.domain() == dom,
            uf.reps() == welded_reps(dom, edges@.subrange(0, k as int)),
            forall|e: EntityId| #[trigger] sky@.contains(e) <==> sky_welded(dom, edges@.subrange(0, k as int), e),
        decreases edges@.len() - k,
    {
        let ghost prev = edges@.subrange(0, k as int);
        let ghost sky_before = sky@;
        let ghost reps_before = uf.reps();
        let edge = edges[k];
        proof {
            assert(edges@.subrange(0, k + 1) =~= prev.push(edge));
        }
        let g = edge.1;
        let joined = match (g[0], g[1]) {
            (Some(a), Some(b)) => {
                if uf.contains(a) && uf.contains(b) {
                    uf.join(a, b);
                    true
                } else {
                    false
                }
            },
            (Some(a), None) => {
                if uf.contains(a) {
                    sky.push(a);
                }
                false
            },
            (None, Some(a)) => {
                if uf.contains(a) {
                    sky.push(a);
                }
                false
            },
            (None, None) => false,
        };
        proof {
            if joined {
                lemma_join_step(dom, prev, edge, reps_before, uf.reps());
            } else {
                lemma_no_join_step(dom, prev, edge);
            }
            assert forall|e: EntityId| #[trigger] sky@.contains(e) <==> sky_welded(dom, prev.push(edge), e) by {
                lemma_sky_welded_push(dom, prev, edge, e);
                if sky@ != sky_before {
                    assert(sky@ == sky_before.push(sky@.last()));
                    lemma_push_contains(sky_before, sky@.last(), e);
                }
            }
        }
        k = k + 1;
    }
    proof {
        assert(edges@.subrange(0, edges@.len() as int) =~= edges@);
        assert(keys@.to_set() =~= dom);
    }
    (uf, sky)
}

/// The `(index, entity)` pairs of the geometries that have a collider link and a position.
fn stateful_pairs(gs: &[WeldGeometry]) -> (r: Vec<(u32, EntityId)>)
    requires
        distinct_geometries(gs@),
    ensures
        forall|x: (u32, EntityId)| #[trigger] r@.contains(x) <==> (has_state(gs@, x.1) && x.0
            == geometry_of(gs@, x.1).index),
        r@.no_duplicates(),
{
    let mut r: Vec<(u32, EntityId)> = Vec::new();
    let mut i: usize = 0;
    while i < gs.len()
        invariant
            0 <= i <= gs@.len(),
            distinct_geometries(gs@),
            forall|x: (u32, EntityId)| #[trigger] r@.contains(x) <==> exists|j: int|
                0 <= j < i && gs@[j].body is Some && x == (gs@[j].index, #[trigger] gs@[j].entity),
            r@.no_duplicates(),
        decreases gs@.len() - i,
    {
        let g = gs[i];
        let ghost before = r@;
        if g.body.is_some() {
            r.push((g.index, g.entity));
            assert(r@ == before.push((g.index, g.entity)));
            proof {
                assert forall|a: int, b: int| 0 <= a < r@.len() && 0 <= b < r@.len() && a != b implies r@[a] != r@[b] by {
                    if a == r@.len() - 1 || b == r@.len() - 1 {
                        let o = if a == r@.len() - 1 { b } else { a };
                        assert(before.contains(before[o]));
                        let j = choose|j: int| 0 <= j < i && gs@[j].body is Some && before[o] == (gs@[j].index, #[trigger] gs@[j].entity);
                        assert(gs@[j].entity != gs@[i as int].entity);
                    } else {
                        assert(before[a] == r@[a]);
                        assert(before[b] == r@[b]);
                    }
                }
            }
        }
        proof {
            assert forall|x: (u32, EntityId)| #[trigger] r@.contains(x) <==> exists|j: int|
                0 <= j < i + 1 && gs@[j].body is Some && x == (gs@[j].index, #[trigger] gs@[j].entity) by {
                if r@.contains(x) {
                    if r@ != before && x == r@.last() {
                        assert(gs@[i as int].entity == x.1);
                    } else {
                        if r@ != before {
                            lemma_push_contains_pair(before, (g.index, g.entity), x);
                        }
                        assert(before.contains(x));
                        let j = choose|j: int| 0 <= j < i && gs@[j].body is Some && x == (gs@[j].index, #[trigger] gs@[j].entity);
                        assert(gs@[j].entity == x.1);
                    }
                }
                if exists|j: int| 0 <= j < i + 1 && gs@[j].body is Some && x == (gs@[j].index, #[trigger] gs@[j].entity) {
                    let j = choose|j: int| 0 <= j < i + 1 && gs@[j].body is Some && x == (gs@[j].index, #[trigger] gs@[j].entity);
                    if j < i {
                        assert(gs@[j].entity == x.1);
                        assert(before.contains(x));
                        let t = choose|t: int| 0 <= t < before.len() && before[t] == x;
                        assert(r@[t] == x);
                    } else {
                        assert(r@[r@.len() - 1] == x);
                    }
                }
            }
        }
        i = i + 1;
    }
    proof {
        assert forall|x: (u32, EntityId)| #[trigger] r@.contains(x) <==> (has_state(gs@, x.1) && x.0
            == geometry_of(gs@, x.1).index) by {
            if r@.contains(x) {
                let j = choose|j: int| 0 <= j < gs@.len() && gs@[j].body is Some && x == (gs@[j].index, #[trigger] gs@[j].entity);
                lemma_geometry_of(gs@, j);
            }
            if has_state(gs@, x.1) && x.0 == geometry_of(gs@, x.1).index {
                let j = choose|j: int| 0 <= j < gs@.len() && #[trigger] gs@[j].entity == x.1 && gs@[j].body is Some;
                lemma_geometry_of(gs@, j);
                assert(x == (gs@[j].index, gs@[j].entity));
            }
        }
    }
    r
}

proof fn lemma_push_contains_pair(s: Seq<(u32, EntityId)>, v: (u32, EntityId), e: (u32, EntityId))
    ensures
        s.push(v).contains(e) <==> s.contains(e) || e == v,
{
    if s.push(v).contains(e) && e != v {
        let i = choose|i: int| 0 <= i < s.push(v).len() && s.push(v)[i] == e;
        assert(s[i] == e);
    }
    if s.contains(e) {
        let i = choose|i: int| 0 <= i < s.len() && s[i] == e;
        assert(s.push(v)[i] == e);
    }
    if e == v {
        assert(s.push(v)[s.len() as int] == e);
    }
}

/// The distinct representatives of the entities of `pairs`, in order of first occurrence.
fn distinct_roots(uf: &mut UnionFind, pairs: &[(u32, EntityId)]) -> (r: Vec<EntityId>)
    requires
        old(uf).wf(),
        forall|j: int| 0 <= j < pairs@.len() ==> old(uf).domain().contains(#[trigger] pairs@[j].1),
    ensures
        final(uf).wf(),
        final(uf).domain() == old(uf).domain(),
        final(uf).reps() == old(uf).reps(),
        r@.no_duplicates(),
        forall|z: EntityId| #[trigger] r@.contains(z) <==> exists|j: int|
            0 <= j < pairs@.len() && old(uf).reps()[#[trigger] pairs@[j].1] == z,
{
    let ghost reps = uf.reps();
    let mut r: Vec<EntityId> = Vec::new();
    let mut k: usize = 0;
    while k < pairs.len()
        invariant
            0 <= k <= pairs@.len(),
            uf.wf(),
            uf.domain() == old(uf).domain(),
            uf.reps() == reps,
            forall|j: int| 0 <= j < pairs@.len() ==> uf.domain().contains(#[trigger] pairs@[j].1),
            r@.no_duplicates(),
            forall|z: EntityId| #[trigger] r@.contains(z) <==> exists|j: int|
                0 <= j < k && reps[#[trigger] pairs@[j].1] == z,
        decreases pairs@.len() - k,
    {
        let x = uf.find(pairs[k].1);
        let ghost before = r@;
        if !crate::ids::contains_id(r.as_slice(), x) {
            r.push(x);
            proof {
                assert forall|a: int, b: int| 0 <= a < r@.len() && 0 <= b < r@.len() && a != b implies r@[a] != r@[b] by {
                    if a < before.len() && b < before.len() {
                        assert(r@[a] == before[a] && r@[b] == before[b]);
                    } else if a < before.len() {
                        assert(r@[a] == before[a]);
                        assert(before.contains(before[a]));
                    } else {
                        assert(r@[b] == before[b]);
                        assert(before.contains(before[b]));
                    }
                }
            }
        }
        proof {
            assert forall|z: EntityId| #[trigger] r@.contains(z) <==> exists|j: int|
                0 <= j < k + 1 && reps[#[trigger] pairs@[j].1] == z by {
                if r@ != before {
                    lemma_push_contains(before, x, z);
                }
                if exists|j: int| 0 <= j < k + 1 && reps[#[trigger] pairs@[j].1] == z {
                    let j = choose|j: int| 0 <= j < k + 1 && reps[#[trigger] pairs@[j].1] == z;
                    if j == k {
                        if r@ == before {
                            assert(before.contains(x));
                        }
                    }
                }
            }
        }
        k = k + 1;
    }
    r
}

/// Each of `roots` keyed by its geometry's entity index.
fn keyed_roots(gs: &[WeldGeometry], roots: &[EntityId]) -> (r: Vec<(u32, EntityId)>)
    requires
        distinct_geometries(gs@),
        forall|j: int| 0 <= j < roots@.len() ==> geometry_set(gs@).contains(#[trigger] roots@[j]),
    ensures
        forall|x: (u32, EntityId)| #[trigger] r@.contains(x) <==> (roots@.contains(x.1) && x.0
            == geometry_of(gs@, x.1).index),
        roots@.no_duplicates() ==> r@.no_duplicates(),
{
    let mut r: Vec<(u32, EntityId)> = Vec::new();
    let mut k: usize = 0;
    while k < roots.len()
        invariant
            0 <= k <= roots@.len(),
            distinct_geometries(gs@),
            forall|j: int| 0 <= j < roots@.len() ==> geometry_set(gs@).contains(#[trigger] roots@[j]),
            r@.len() == k,
            forall|j: int| 0 <= j < k ==> #[trigger] r@[j] == (geometry_of(gs@, roots@[j]).index, roots@[j]),
        decreases roots@.len() - k,
    {
        let g = geometry_entry(gs, roots[k]);
        r.push((g.index, roots[k]));
        k = k + 1;
    }
    proof {
        assert forall|x: (u32, EntityId)| #[trigger] r@.contains(x) <==> (roots@.contains(x.1) && x.0
            == geometry_of(gs@, x.1).index) by {
            if r@.contains(x) {
                let j = choose|j: int| 0 <= j < r@.len() && r@[j] == x;
                assert(r@[j] == (geometry_of(gs@, roots@[j]).index, roots@[j]));
            }
            if roots@.contains(x.1) && x.0 == geometry_of(gs@, x.1).index {
                let j = choose|j: int| 0 <= j < roots@.len() && roots@[j] == x.1;
                assert(r@[j] == x);
            }
        }
        if roots@.no_duplicates() {
            assert forall|a: int, b: int| 0 <= a < r@.len() && 0 <= b < r@.len() && a != b implies r@[a] != r@[b] by {
                assert(r@[a] == (geometry_of(gs@, roots@[a]).index, roots@[a]));
                assert(r@[b] == (geometry_of(gs@, roots@[b]).index, roots@[b]));
            }
        }
    }
    r
}

/// The pairs of `pairs` whose entity has representative `root`, in order.
fn component_members(uf: &mut UnionFind, pairs: &[(u32, EntityId)], root: EntityId) -> (r: Vec<(u32, EntityId)>)
    requires
        old(uf).wf(),
        forall|j: int| 0 <= j < pairs@.len() ==> old(uf).domain().contains(#[trigger] pairs@[j].1),
    ensures
        final(uf).wf(),
        final(uf).domain() == old(uf).domain(),
        final(uf).reps() == old(uf).reps(),
        forall|x: (u32, EntityId)| #[trigger] r@.contains(x) <==> (pairs@.contains(x) && old(uf).reps()[x.1] == root),
        sorted_by_key(pairs@) ==> sorted_by_key(r@),
        pairs@.no_duplicates() ==> r@.no_duplicates(),
{
    let ghost reps = uf.reps();
    let mut r: Vec<(u32, EntityId)> = Vec::new();
    let mut k: usize = 0;
    while k < pairs.len()
        invariant
            0 <= k <= pairs@.len(),
            uf.wf(),
            uf.domain() == old(uf).domain(),
            uf.reps() == reps,
            forall|j: int| 0 <= j < pairs@.len() ==> uf.domain().contains(#[trigger] pairs@[j].1),
            forall|a: int| #![trigger r@[a]] 0 <= a < r@.len() ==> exists|j: int| 0 <= j < k && #[trigger] pairs@[j] == r@[a],
            forall|j: int| #![trigger pairs@[j]] 0 <= j < k && reps[pairs@[j].1] == root ==> r@.contains(pairs@[j]),
            forall|a: int| #![trigger r@[a]] 0 <= a < r@.len() ==> reps[r@[a].1] == root,
            sorted_by_key(pairs@) ==> sorted_by_key(r@) && forall|a: int, j: int| #![trigger r@[a], pairs@[j]]
                0 <= a < r@.len() && k <= j < pairs@.len() ==> r@[a].0 <= pairs@[j].0,
            pairs@.no_duplicates() ==> r@.no_duplicates() && forall|a: int, j: int| #![trigger r@[a], pairs@[j]]
                0 <= a < r@.len() && k <= j < pairs@.len() ==> r@[a] != pairs@[j],
        decreases pairs@.len() - k,
    {
        let x = uf.find(pairs[k].1);
        let ghost before = r@;
        if x == root {
            r.push(pairs[k]);
        }
        proof {
            assert forall|a: int| #![trigger r@[a]] 0 <= a < r@.len() implies exists|j: int| 0 <= j < k + 1 && #[trigger] pairs@[j] == r@[a] by {
                if a < before.len() {
                    assert(r@[a] == before[a]);
                } else {
                    assert(pairs@[k as int] == r@[a]);
                }
            }
            assert forall|j: int| #![trigger pairs@[j]] 0 <= j < k + 1 && reps[pairs@[j].1] == root implies r@.contains(pairs@[j]) by {
                if j < k {
                    let t = choose|t: int| 0 <= t < before.len() && before[t] == pairs@[j];
                    assert(r@[t] == pairs@[j]);
                } else {
                    assert(r@[r@.len() - 1] == pairs@[j]);
                }
            }
            if sorted_by_key(pairs@) {
                assert forall|a: int, j: int| #![trigger r@[a], pairs@[j]]
                    0 <= a < r@.len() && k + 1 <= j < pairs@.len() implies r@[a].0 <= pairs@[j].0 by {
                    if a < before.len() {
                        assert(r@[a] == before[a]);
                        assert(before[a].0 <= pairs@[j].0);
                    } else {
                        assert(r@[a] == pairs@[k as int]);
                    }
                }
                assert forall|a: int, b: int| 0 <= a < b < r@.len() implies r@[a].0 <= r@[b].0 by {
                    if b < before.len() {
                        assert(r@[a] == before[a] && r@[b] == before[b]);
                    } else {
                        assert(r@[a] == before[a]);
                        assert(r@[b] == pairs@[k as int]);
                        assert(before[a].0 <= pairs@[k as int].0);
                    }
                }
            }
            if pairs@.no_duplicates() {
                assert forall|a: int, j: int| #![trigger r@[a], pairs@[j]]
                    0 <= a < r@.len() && k + 1 <= j < pairs@.len() implies r@[a] != pairs@[j] by {
                    if a < before.len() {
                        assert(r@[a] == before[a]);
                        assert(before[a] != pairs@[j]);
                    } else {
                        assert(r@[a] == pairs@[k as int]);
                    }
                }
                assert forall|a: int, b: int| 0 <= a < r@.len() && 0 <= b < r@.len() && a != b implies r@[a] != r@[b] by {
                    if a < before.len() && b < before.len() {
                        assert(r@[a] == before[a] && r@[b] == before[b]);
                    } else if a < before.len() {
                        assert(r@[a] == before[a]);
                        assert(before[a] != pairs@[k as int]);
                    } else {
                        assert(r@[b] == before[b]);
                        assert(before[b] != pairs@[k as int]);
                    }
                }
            }
        }
        k = k + 1;
    }
    proof {
        assert forall|x: (u32, EntityId)| #[trigger] r@.contains(x) <==> (pairs@.contains(x) && reps[x.1] == root) by {
            if r@.contains(x) {
                let a = choose|a: int| 0 <= a < r@.len() && r@[a] == x;
                let j = choose|j: int| 0 <= j < pairs@.len() && #[trigger] pairs@[j] == r@[a];
                assert(pairs@[j] == x);
            }
            if pairs@.contains(x) && reps[x.1] == root {
                let j = choose|j: int| 0 <= j < pairs@.len() && pairs@[j] == x;
                assert(r@.contains(pairs@[j]));
            }
        }
    }
    r
}

/// The bodies of the geometries `members`, in order.
pub open spec fn member_bodies(gs: Seq<WeldGeometry>, members: Seq<EntityId>) -> Seq<EntityId> {
    members.map_values(|m: EntityId| geometry_of(gs, m).body->0)
}

/// A group is static when one of its geometries is welded to the sky or is a plane.
pub open spec fn group_is_static(
    gs: Seq<WeldGeometry>,
    edges: Seq<WeldEdge>,
    root: EntityId,
    members: Seq<EntityId>,
) -> bool {
    let dom = geometry_set(gs);
    (exists|e: EntityId| #[trigger] sky_welded(dom, edges, e) && welded_reps(dom, edges)[e] == root)
        || (exists|a: int| 0 <= a < members.len() && geometry_of(gs, #[trigger] members[a]).is_plane)
}

/// A static group goes on the sky body; any other reuses the first body of its geometries
/// (in their order) that is neither the sky nor in `used`, or gets a new body.
pub open spec fn body_choice(
    is_static: bool,
    bodies: Seq<EntityId>,
    used: Set<EntityId>,
    sky: EntityId,
) -> BodyChoice {
    if is_static {
        BodyChoice::Sky
    } else {
        match first_free_body(bodies, used, sky) {
            Some(b) => BodyChoice::Existing(b),
            None => BodyChoice::New,
        }
    }
}

/// Group `i` of `comps` is what the weld rebuild makes: exactly the regrouped geometries
/// welded to its representative, each once and by entity index, static as
/// `group_is_static` says, on the body `body_choice` picks given the bodies the earlier
/// groups took.
pub open spec fn group_ok(
    gs: Seq<WeldGeometry>,
    edges: Seq<WeldEdge>,
    comps: Seq<WeldComponent>,
    i: int,
    sky: EntityId,
) -> bool {
    let c = comps[i];
    let rep = welded_reps(geometry_set(gs), edges);
    &&& forall|m: EntityId| #[trigger] c.members@.contains(m) <==> has_state(gs, m) && rep[m] == c.root
    &&& c.members@.no_duplicates()
    &&& forall|a: int, b: int| 0 <= a < b < c.members@.len() ==> geometry_of(gs, #[trigger] c.members@[a]).index
        <= geometry_of(gs, #[trigger] c.members@[b]).index
    &&& c.is_static == group_is_static(gs, edges, c.root, c.members@)
    &&& c.body == body_choice(
        c.is_static,
        member_bodies(gs, c.members@),
        bodies_taken(comps.map_values(|w: WeldComponent| w.body), i),
        sky,
    )
}

proof fn lemma_bodies_taken_prefix(s1: Seq<BodyChoice>, s2: Seq<BodyChoice>, n: int)
    requires
        0 <= n <= s1.len(),
        n <= s2.len(),
        forall|i: int| 0 <= i < n ==> s1[i] == s2[i],
    ensures
        bodies_taken(s1, n) == bodies_taken(s2, n),
    decreases n,
{
    if n > 0 {
        lemma_bodies_taken_prefix(s1, s2, n - 1);
    }
}

/// The first of `bodies` that is neither the sky nor in `used`.
fn first_free(bodies: &[EntityId], used: &[EntityId], sky: EntityId) -> (r: Option<EntityId>)
    ensures
        r == first_free_body(bodies@, used@.to_set(), sky),
{
    let mut t: usize = 0;
    proof {
        assert(bodies@.subrange(0, bodies@.len() as int) =~= bodies@);
    }
    while t < bodies.len()
        invariant
            0 <= t <= bodies@.len(),
            first_free_body(bodies@, used@.to_set(), sky) == first_free_body(
                bodies@.subrange(t as int, bodies@.len() as int),
                used@.to_set(),
                sky,
            ),
        decreases bodies@.len() - t,
    {
        let b = bodies[t];
        proof {
            assert(bodies@.subrange(t as int, bodies@.len() as int).drop_first() =~= bodies@.subrange(
                t + 1,
                bodies@.len() as int,
            ));
        }
        if b != sky && !crate::ids::contains_id(used, b) {
            return Some(b);
        }
        t = t + 1;
    }
    None
}

/// The group of representative `root`, from the regrouped geometries `pairs` (sorted by
/// entity index) and the representatives of the sky-welded geometries.
fn build_group(
    gs: &[WeldGeometry],
    edges: &[WeldEdge],
    uf: &mut UnionFind,
    pairs: &[(u32, EntityId)],
    root: EntityId,
    sky_roots: &[EntityId],
    used: &[EntityId],
    sky: EntityId,
) -> (c: WeldComponent)
    requires
        distinct_geometries(gs@),
        old(uf).wf(),
        old(uf).domain() == geometry_set(gs@),
        old(uf).reps() == welded_reps(geometry_set(gs@), edges@),
        forall|x: (u32, EntityId)| #[trigger] pairs@.contains(x) <==> (has_state(gs@, x.1) && x.0
            == geometry_of(gs@, x.1).index),
        sorted_by_key(pairs@),
        pairs@.no_duplicates(),
        forall|z: EntityId| #[trigger] sky_roots@.contains(z) <==> exists|e: EntityId|
            #[trigger] sky_welded(geometry_set(gs@), edges@, e) && welded_reps(geometry_set(gs@), edges@)[e] == z,
    ensures
        final(uf).wf(),
        final(uf).domain() == old(uf).domain(),
        final(uf).reps() == old(uf).reps(),
        c.root == root,
        forall|m: EntityId| #[trigger] c.members@.contains(m) <==> has_state(gs@, m) && old(uf).reps()[m] == root,
        c.members@.no_duplicates(),
        forall|a: int, b: int| 0 <= a < b < c.members@.len() ==> geometry_of(gs@, #[trigger] c.members@[a]).index
            <= geometry_of(gs@, #[trigger] c.members@[b]).index,
        c.is_static == group_is_static(gs@, edges@, root, c.members@),
        c.body == body_choice(c.is_static, member_bodies(gs@, c.members@), used@.to_set(), sky),
{
    let ghost rep = uf.reps();
    proof {
        assert forall|j: int| 0 <= j < pairs@.len() implies uf.domain().contains(#[trigger] pairs@[j].1) by {
            assert(pairs@.contains(pairs@[j]));
            let t = choose|t: int| 0 <= t < gs@.len() && #[trigger] gs@[t].entity == pairs@[j].1 && gs@[t].body is Some;
            lemma_geometry_set(gs@, pairs@[j].1);
        }
    }
    let mp = component_members(uf, pairs, root);
    let mut members: Vec<EntityId> = Vec::new();
    let mut bodies: Vec<EntityId> = Vec::new();
    let mut plane = false;
    let mut a: usize = 0;
    while a < mp.len()
        invariant
            0 <= a <= mp@.len(),
            distinct_geometries(gs@),
            forall|x: (u32, EntityId)| #[trigger] mp@.contains(x) <==> (pairs@.contains(x) && rep[x.1] == root),
            forall|x: (u32, EntityId)| #[trigger] pairs@.contains(x) <==> (has_state(gs@, x.1) && x.0
                == geometry_of(gs@, x.1).index),
            members@.len() == a,
            bodies@.len() == a,
            forall|c: int| 0 <= c < a ==> #[trigger] members@[c] == mp@[c].1,
            forall|c: int| 0 <= c < a ==> #[trigger] bodies@[c] == geometry_of(gs@, members@[c]).body->0,
            plane == exists|c: int| 0 <= c < a && geometry_of(gs@, #[trigger] members@[c]).is_plane,
        decreases mp@.len() - a,
    {
        let e = mp[a].1;
        proof {
            assert(mp@.contains(mp@[a as int]));
            assert(pairs@.contains(mp@[a as int]));
            let t = choose|t: int| 0 <= t < gs@.len() && #[trigger] gs@[t].entity == e && gs@[t].body is Some;
            lemma_geometry_of(gs@, t);
            lemma_geometry_set(gs@, e);
        }
        let g = geometry_entry(gs, e);
        let ghost mbefore = members@;
        let ghost pbefore = plane;
        members.push(e);
        bodies.push(g.body.unwrap());
        plane = plane || g.is_plane;
        a = a + 1;
        proof {
            assert(members@ == mbefore.push(e));
            assert forall|c: int| 0 <= c < a - 1 implies #[trigger] members@[c] == mbefore[c] by {}
            if plane {
                if !g.is_plane {
                    assert(pbefore);
                    let c = choose|c: int| 0 <= c < a - 1 && geometry_of(gs@, #[trigger] mbefore[c]).is_plane;
                    assert(members@[c] == mbefore[c]);
                } else {
                    assert(members@[a - 1] == e);
                    assert(geometry_of(gs@, members@[a - 1]).is_plane);
                }
            } else {
                assert forall|c: int| 0 <= c < a implies !geometry_of(gs@, #[trigger] members@[c]).is_plane by {
                    if c < a - 1 {
                        assert(members@[c] == mbefore[c]);
                    }
                }
            }
        }
    }
    proof {
        assert(bodies@ =~= member_bodies(gs@, members@));
        assert forall|m: EntityId| #[trigger] members@.contains(m) <==> has_state(gs@, m) && rep[m] == root by {
            if members@.contains(m) {
                let c = choose|c: int| 0 <= c < members@.len() && members@[c] == m;
                assert(mp@.contains(mp@[c]));
            }
            if has_state(gs@, m) && rep[m] == root {
                let x = (geometry_of(gs@, m).index, m);
                assert(pairs@.contains(x));
                assert(mp@.contains(x));
                let c = choose|c: int| 0 <= c < mp@.len() && mp@[c] == x;
                assert(members@[c] == m);
            }
        }
        assert forall|c1: int, c2: int| 0 <= c1 < members@.len() && 0 <= c2 < members@.len() && c1 != c2
            implies members@[c1] != members@[c2] by {
            assert(mp@.contains(mp@[c1]) && mp@.contains(mp@[c2]));
            assert(pairs@.contains(mp@[c1]) && pairs@.contains(mp@[c2]));
        }
        assert forall|c1: int, c2: int| 0 <= c1 < c2 < members@.len() implies geometry_of(gs@, #[trigger] members@[c1]).index
            <= geometry_of(gs@, #[trigger] members@[c2]).index by {
            assert(mp@.contains(mp@[c1]) && mp@.contains(mp@[c2]));
            assert(pairs@.contains(mp@[c1]) && pairs@.contains(mp@[c2]));
        }
    }
    let in_sky = crate::ids::contains_id(sky_roots, root);
    let is_static = in_sky || plane;
    let body = if is_static {
        BodyChoice::Sky
    } else {
        match first_free(bodies.as_slice(), used, sky) {
            Some(b) => BodyChoice::Existing(b),
            None => BodyChoice::New,
        }
    };
    WeldComponent { root, members, is_static, body }
}

/// The representatives of the sky-welded geometries `sky_geoms`.
fn sky_representatives(uf: &mut UnionFind, sky_geoms: &[EntityId], edges: Ghost<Seq<WeldEdge>>) -> (sky_roots: Vec<EntityId>)
    requires
        old(uf).wf(),
        old(uf).reps() == welded_reps(old(uf).domain(), edges@),
        forall|e: EntityId| #[trigger] sky_geoms@.contains(e) <==> sky_welded(old(uf).domain(), edges@, e),
    ensures
        final(uf).wf(),
        final(uf).domain() == old(uf).domain(),
        final(uf).reps() == old(uf).reps(),
        forall|z: EntityId| #[trigger] sky_roots@.contains(z) <==> exists|e: EntityId|
            #[trigger] sky_welded(old(uf).domain(), edges@, e) && old(uf).reps()[e] == z,
{
    let ghost dom = uf.domain();
    let ghost rep = uf.reps();
    let ghost edges = edges@;
    let mut sky_roots: Vec<EntityId> = Vec::new();
    let mut t: usize = 0;
    while t < sky_geoms.len()
        invariant
            0 <= t <= sky_geoms@.len(),
            uf.wf(),
            uf.domain() == dom,
            uf.reps() == rep,
            rep == welded_reps(dom, edges),
            forall|e: EntityId| #[trigger] sky_geoms@.contains(e) <==> sky_welded(dom, edges, e),
            forall|z: EntityId| #[trigger] sky_roots@.contains(z) <==> exists|j: int|
                0 <= j < t && rep[#[trigger] sky_geoms@[j]] == z,
        decreases sky_geoms@.len() - t,
    {
        proof {
            assert(sky_geoms@.contains(sky_geoms@[t as int]));
        }
        let z = uf.find(sky_geoms[t]);
        let ghost before = sky_roots@;
        sky_roots.push(z);
        proof {
            assert forall|y: EntityId| #[trigger] sky_roots@.contains(y) <==> exists|j: int|
                0 <= j < t + 1 && rep[#[trigger] sky_geoms@[j]] == y by {
                lemma_push_contains(before, z, y);
                if exists|j: int| 0 <= j < t + 1 && rep[#[trigger] sky_geoms@[j]] == y {
                    let j = choose|j: int| 0 <= j < t + 1 && rep[#[trigger] sky_geoms@[j]] == y;
                    if j < t {
                        assert(before.contains(y));
                    }
                }
            }
        }
        t = t + 1;
    }
    proof {
        assert forall|z: EntityId| #[trigger] sky_roots@.contains(z) <==> exists|e: EntityId|
            #[trigger] sky_welded(dom, edges, e) && rep[e] == z by {
            if sky_roots@.contains(z) {
                let j = choose|j: int| 0 <= j < sky_geoms@.len() && rep[#[trigger] sky_geoms@[j]] == z;
                assert(sky_geoms@.contains(sky_geoms@[j]));
            }
            if exists|e: EntityId| #[trigger] sky_welded(dom, edges, e) && rep[e] == z {
                let e = choose|e: EntityId| #[trigger] sky_welded(dom, edges, e) && rep[e] == z;
                assert(sky_geoms@.contains(e));
                let j = choose|j: int| 0 <= j < sky_geoms@.len() && sky_geoms@[j] == e;
                assert(rep[sky_geoms@[j]] == z);
            }
        }
    }
    sky_roots
}

/// Regroups the geometries into welded bodies along the fix joints `edges` (in joint
/// order). The geometries with a collider link and a position are split into groups of
/// geometries linked by chains of fix joints (see `lemma_welded_iff_linked`), one group per
/// representative, ordered by the entity index of the representative; each group is
/// described by `group_ok`.
pub fn plan_welds(gs: &[WeldGeometry], edges: &[WeldEdge], sky: EntityId) -> (comps: Vec<WeldComponent>)
    requires
        distinct_geometries(gs@),
    ensures
        forall|i: int| 0 <= i < comps@.len() ==> #[trigger] group_ok(gs@, edges@, comps@, i, sky),
        forall|i: int| 0 <= i < comps@.len() ==> exists|e: EntityId| #[trigger] has_state(gs@, e)
            && welded_reps(geometry_set(gs@), edges@)[e] == (#[trigger] comps@[i]).root,
        forall|e: EntityId| #[trigger] has_state(gs@, e) ==> exists|i: int|
            0 <= i < comps@.len() && #[trigger] comps@[i].root == welded_reps(geometry_set(gs@), edges@)[e],
        forall|i: int, j: int| 0 <= i < j < comps@.len() ==> comps@[i].root != comps@[j].root && geometry_of(
            gs@,
            #[trigger] comps@[i].root,
        ).index <= geometry_of(gs@, #[trigger] comps@[j].root).index,
{
    let ghost dom = geometry_set(gs@);
    let (mut uf, sky_geoms) = weld_union(gs, edges);
    let ghost rep = uf.reps();
    proof {
        lemma_welded_reps_dom(dom, edges@);
    }
    let unsorted = stateful_pairs(gs);
    let pairs = sort_by_index(unsorted.as_slice());
    proof {
        assert forall|j: int| 0 <= j < pairs@.len() implies uf.domain().contains(#[trigger] pairs@[j].1) by {
            assert(pairs@.contains(pairs@[j]));
            let t = choose|t: int| 0 <= t < gs@.len() && #[trigger] gs@[t].entity == pairs@[j].1 && gs@[t].body is Some;
            lemma_geometry_set(gs@, pairs@[j].1);
        }
    }
    let roots = distinct_roots(&mut uf, pairs.as_slice());
    proof {
        assert forall|j: int| 0 <= j < roots@.len() implies geometry_set(gs@).contains(#[trigger] roots@[j]) by {
            assert(roots@.contains(roots@[j]));
            let t = choose|t: int| 0 <= t < pairs@.len() && rep[#[trigger] pairs@[t].1] == roots@[j];
            assert(dom.contains(pairs@[t].1));
        }
    }
    let keyed = keyed_roots(gs, roots.as_slice());
    let ordered = sort_by_index(keyed.as_slice());
    let sky_roots = sky_representatives(&mut uf, sky_geoms.as_slice(), Ghost(edges@));
    let mut comps: Vec<WeldComponent> = Vec::new();
    let mut used: Vec<EntityId> = Vec::new();
    let mut k: usize = 0;
    while k < ordered.len()
        invariant
            0 <= k <= ordered@.len(),
            distinct_geometries(gs@),
            uf.wf(),
            uf.domain() == dom,
            uf.reps() == rep,
            rep == welded_reps(dom, edges@),
            dom == geometry_set(gs@),
            forall|x: (u32, EntityId)| #[trigger] pairs@.contains(x) <==> (has_state(gs@, x.1) && x.0
                == geometry_of(gs@, x.1).index),
            sorted_by_key(pairs@),
            pairs@.no_duplicates(),
            forall|z: EntityId| #[trigger] sky_roots@.contains(z) <==> exists|e: EntityId|
                #[trigger] sky_welded(dom, edges@, e) && rep[e] == z,
            comps@.len() == k,
            forall|i: int| 0 <= i < k ==> (#[trigger] comps@[i]).root == ordered@[i].1,
            forall|i: int| 0 <= i < k ==> #[trigger] group_ok(gs@, edges@, comps@, i, sky),
            used@.to_set() == bodies_taken(comps@.map_values(|w: WeldComponent| w.body), k as int),
        decreases ordered@.len() - k,
    {
        let root = ordered[k].1;
        let c = build_group(gs, edges, &mut uf, pairs.as_slice(), root, sky_roots.as_slice(), used.as_slice(), sky);
        let ghost before = comps@;
        let ghost used_before = used@;
        if let BodyChoice::Existing(b) = c.body {
            used.push(b);
        }
        comps.push(c);
        proof {
            let ch0 = before.map_values(|w: WeldComponent| w.body);
            let ch1 = comps@.map_values(|w: WeldComponent| w.body);
            assert forall|i: int| 0 <= i < k implies ch0[i] == ch1[i] by {
                assert(comps@[i] == before[i]);
            }
            lemma_bodies_taken_prefix(ch0, ch1, k as int);
            assert forall|i: int| 0 <= i < k + 1 implies #[trigger] group_ok(gs@, edges@, comps@, i, sky) by {
                if i < k {
                    assert(comps@[i] == before[i]);
                    assert(group_ok(gs@, edges@, before, i, sky));
                    lemma_bodies_taken_prefix(ch0, ch1, i);
                    assert forall|ii: int| 0 <= ii < i implies ch0[ii] == ch1[ii] by {
                        assert(comps@[ii] == before[ii]);
                    }
                }
            }
            assert(ch1[k as int] == c.body);
            assert(used@.to_set() =~= bodies_taken(ch1, k + 1)) by {
                if let BodyChoice::Existing(b) = c.body {
                    assert(used@ == used_before.push(b));
                    assert forall|x: EntityId| used@.contains(x) <==> used_before.contains(x) || x == b by {
                        lemma_push_contains(used_before, b, x);
                    }
                } else {
                    assert(used@ == used_before);
                }
            }
        }
        k = k + 1;
    }
    proof {
        assert forall|i: int| 0 <= i < comps@.len() implies exists|e: EntityId| #[trigger] has_state(gs@, e)
            && rep[e] == (#[trigger] comps@[i]).root by {
            let y = ordered@[i];
            assert(ordered@.contains(y));
            assert(keyed@.contains(y));
            assert(roots@.contains(y.1));
            let t = choose|t: int| 0 <= t < pairs@.len() && rep[#[trigger] pairs@[t].1] == y.1;
            assert(pairs@.contains(pairs@[t]));
            assert(has_state(gs@, pairs@[t].1));
        }
        assert forall|e: EntityId| #[trigger] has_state(gs@, e) implies exists|i: int|
            0 <= i < comps@.len() && #[trigger] comps@[i].root == rep[e] by {
            let x = (geometry_of(gs@, e).index, e);
            assert(pairs@.contains(x));
            let j = choose|j: int| 0 <= j < pairs@.len() && pairs@[j] == x;
            assert(rep[pairs@[j].1] == rep[e]);
            assert(roots@.contains(rep[e]));
            let y = (geometry_of(gs@, rep[e]).index, rep[e]);
            assert(keyed@.contains(y));
            assert(ordered@.contains(y));
            let i = choose|i: int| 0 <= i < ordered@.len() && ordered@[i] == y;
            assert(comps@[i].root == rep[e]);
        }
        assert forall|i: int, j: int| 0 <= i < j < comps@.len() implies comps@[i].root != comps@[j].root && geometry_of(
            gs@,
            #[trigger] comps@[i].root,
        ).index <= geometry_of(gs@, #[trigger] comps@[j].root).index by {
            assert(ordered@.contains(ordered@[i]) && ordered@.contains(ordered@[j]));
            assert(keyed@.contains(ordered@[i]) && keyed@.contains(ordered@[j]));
            assert(ordered@[i] != ordered@[j]);
        }
    }
    comps
}

proof fn lemma_first_free_body(bodies: Seq<EntityId>, used: Set<EntityId>, sky: EntityId)
    ensures
        first_free_body(bodies, used, sky) matches Some(b) ==> !used.contains(b) && b != sky,
    decreases bodies.len(),
{
    if bodies.len() > 0 {
        lemma_first_free_body(bodies.drop_first(), used, sky);
    }
}

proof fn lemma_bodies_taken_holds(choices: Seq<BodyChoice>, i: int, n: int, b: EntityId)
    requires
        0 <= i < n,
        choices[i] == BodyChoice::Existing(b),
    ensures
        bodies_taken(choices, n).contains(b),
    decreases n,
{
    if n - 1 > i {
        lemma_bodies_taken_holds(choices, i, n - 1, b);
    }
}

/// Law: a body is reused by at most one welded group. When group `i` takes an existing
/// body, no later group takes the same body.
pub proof fn lemma_groups_never_share_a_body(
    gs: Seq<WeldGeometry>,
    edges: Seq<WeldEdge>,
    comps: Seq<WeldComponent>,
    sky: EntityId,
    i: int,
    j: int,
    b: EntityId,
)
    requires
        0 <= i < j < comps.len(),
        group_ok(gs, edges, comps, j, sky),
        comps[i].body == BodyChoice::Existing(b),
    ensures
        comps[j].body != BodyChoice::Existing(b),
{
    let choices = comps.map_values(|w: WeldComponent| w.body);
    assert(choices[i] == BodyChoice::Existing(b));
    lemma_bodies_taken_holds(choices, i, j, b);
    lemma_first_free_body(member_bodies(gs, comps[j].members@), bodies_taken(choices, j), sky);
}

/// Whether a fix joint has lost its geometry: it has none at all, or one of its geometries is
/// no longer a geometry.
pub fn is_stale_joint(geoms: [Option<EntityId>; 2], geometries: &[EntityId]) -> (r: bool)
    ensures
        r == joint_is_stale(geoms, geometries@),
{
    if geoms[0].is_none() && geoms[1].is_none() {
        return true;
    }
    let mut k: usize = 0;
    while k < 2
        invariant
            0 <= k <= 2,
            forall|j: int| 0 <= j < k ==> !(#[trigger] geoms[j] is Some && !geometries@.contains(geoms[j]->0)),
        decreases 2 - k,
    {
        if let Some(e) = geoms[k] {
            if !crate::ids::contains_id(geometries, e) {
                return true;
            }
        }
        k = k + 1;
    }
    false
}

/// Whether a spring has lost a body it was attached to: one of its ends (`Some(body)`, `None`
/// for an end in the sky) is on an entity that is no longer a geometry.
pub fn is_stale_spring(ends: [Option<EntityId>; 2], geometries: &[EntityId]) -> (r: bool)
    ensures
        r == spring_is_stale(ends, geometries@),
{
    let mut k: usize = 0;
    while k < 2
        invariant
            0 <= k <= 2,
            forall|j: int| 0 <= j < k ==> !(#[trigger] ends[j] is Some && !geometries@.contains(ends[j]->0)),
        decreases 2 - k,
    {
        if let Some(e) = ends[k] {
            if !crate::ids::contains_id(geometries, e) {
                return true;
            }
        }
        k = k + 1;
    }
    false
}

/// Whether two weld graphs are the same list of joints.
pub fn same_topology(a: &[WeldEdge], b: &[WeldEdge]) -> (r: bool)
    ensures
        r == (a@ == b@),
{
    if a.len() != b.len() {
        return false;
    }
    let mut i: usize = 0;
    while i < a.len()
        invariant
            0 <= i <= a@.len(),
            a@.len() == b@.len(),
            forall|j: int| 0 <= j < i ==> a@[j] == b@[j],
        decreases a@.len() - i,
    {
        let (x, gx) = a[i];
        let (y, gy) = b[i];
        if x != y || gx[0] != gy[0] || gx[1] != gy[1] {
            return false;
        }
        proof {
            assert(gx =~= gy);
        }
        i = i + 1;
    }
    proof {
        assert(a@ =~= b@);
    }
    true
}

/// The geometries of the joints, in order.
pub open spec fn fix_geoms(fixes: Seq<[Option<EntityId>; 2]>) -> Seq<EntityId>
    decreases fixes.len(),
{
    if fixes.len() == 0 {
        Seq::empty()
    } else {
        let g = fixes.last();
        let a = fix_geoms(fixes.drop_last());
        let a = if g[0] is Some { a.push(g[0]->0) } else { a };
        if g[1] is Some { a.push(g[1]->0) } else { a }
    }
}

proof fn lemma_fix_geoms(fixes: Seq<[Option<EntityId>; 2]>, x: EntityId)
    ensures
        fix_geoms(fixes).contains(x) <==> exists|i: int, k: int| 0 <= i < fixes.len() && 0 <= k < 2 && #[trigger] fixes[i][k] == Some(x),
        fix_geoms(fixes).len() <= 2 * fixes.len(),
    decreases fixes.len(),
{
    if fixes.len() > 0 {
        let prev = fixes.drop_last();
        lemma_fix_geoms(prev, x);
        let g = fixes.last();
        let a0 = fix_geoms(prev);
        let a1 = if g[0] is Some { a0.push(g[0]->0) } else { a0 };
        let a2 = if g[1] is Some { a1.push(g[1]->0) } else { a1 };
        if g[0] is Some { lemma_push_contains(a0, g[0]->0, x); }
        if g[1] is Some { lemma_push_contains(a1, g[1]->0, x); }
        if a2.contains(x) {
            if a0.contains(x) {
                let (i, k) = choose|i: int, k: int| 0 <= i < prev.len() && 0 <= k < 2 && #[trigger] prev[i][k] == Some(x);
                assert(fixes[i] == prev[i]);
            } else if g[0] == Some(x) {
                assert(fixes[fixes.len() - 1][0] == Some(x));
            } else {
                assert(fixes[fixes.len() - 1][1] == Some(x));
            }
        }
        if exists|i: int, k: int| 0 <= i < fixes.len() && 0 <= k < 2 && #[trigger] fixes[i][k] == Some(x) {
            let (i, k) = choose|i: int, k: int| 0 <= i < fixes.len() && 0 <= k < 2 && #[trigger] fixes[i][k] == Some(x);
            if i < fixes.len() - 1 {
                assert(prev[i] == fixes[i]);
                assert(prev[i][k] == Some(x));
            }
        }
    }
}

/// Joint `i` has `a` as its geometry `k` and `b` as its geometry `k2`.
pub open spec fn joined_by(
    fixes: Seq<[Option<EntityId>; 2]>,
    i: int,
    k: int,
    k2: int,
    a: EntityId,
    b: EntityId,
) -> bool {
    0 <= i < fixes.len() && 0 <= k < 2 && 0 <= k2 < 2 && fixes[i][k] == Some(a) && fixes[i][k2] == Some(b)
}

/// Entity `t` of `s` shares a joint with an entity earlier in `s`.
pub open spec fn linked_earlier(fixes: Seq<[Option<EntityId>; 2]>, s: Seq<EntityId>, t: int) -> bool {
    exists|i: int, k: int, k2: int, u: int| 0 <= u < t && #[trigger] joined_by(fixes, i, k, k2, s[t], s[u])
}

/// Whether joint `g` has a geometry among `s`.
pub open spec fn touches(g: [Option<EntityId>; 2], s: Seq<EntityId>) -> bool {
    exists|k: int| 0 <= k < 2 && #[trigger] g[k] is Some && s.contains(g[k]->0)
}

/// Whether all geometries of joint `g` are among `s`.
pub open spec fn holds_all(g: [Option<EntityId>; 2], s: Seq<EntityId>) -> bool {
    forall|k: int| 0 <= k < 2 && #[trigger] g[k] is Some ==> s.contains(g[k]->0)
}

/// `s` with the entity of `o` appended, unless there is none or `s` already holds it.
pub open spec fn pushed_opt(s: Seq<EntityId>, o: Option<EntityId>) -> Seq<EntityId> {
    match o {
        Some(e) => pushed(s, e),
        None => s,
    }
}

/// The first `k` geometries of joint `g` appended to `s`, each unless already there.
pub open spec fn pushed_geoms(s: Seq<EntityId>, g: [Option<EntityId>; 2], k: int) -> Seq<EntityId>
    decreases k,
{
    if k <= 0 {
        s
    } else {
        pushed_opt(pushed_geoms(s, g, k - 1), g[k - 1])
    }
}

/// One joint's step of a pass over the joints: a joint touching `s` appends its
/// geometries in order.
pub open spec fn joint_step(s: Seq<EntityId>, g: [Option<EntityId>; 2]) -> Seq<EntityId> {
    if touches(g, s) {
        pushed_geoms(s, g, 2)
    } else {
        s
    }
}

/// The steps of the first `j` joints, in joint order.
pub open spec fn pass_upto(s: Seq<EntityId>, fixes: Seq<[Option<EntityId>; 2]>, j: int) -> Seq<EntityId>
    decreases j,
{
    if j <= 0 {
        s
    } else {
        joint_step(pass_upto(s, fixes, j - 1), fixes[j - 1])
    }
}

/// Passes over the joints, at most `n` of them, until one adds nothing.
pub open spec fn expanded_by_fixes(s: Seq<EntityId>, fixes: Seq<[Option<EntityId>; 2]>, n: nat) -> Seq<
    EntityId,
>
    decreases n,
{
    if n == 0 {
        s
    } else {
        let t = pass_upto(s, fixes, fixes.len() as int);
        if t.len() == s.len() {
            s
        } else {
            expanded_by_fixes(t, fixes, (n - 1) as nat)
        }
    }
}

/// The selection grown along fix joints until no joint links it to anything outside: the
/// selected entities come first, in order; every joint that touches the result has all its
/// geometries in it; and each added entity is a geometry of a joint that touches an entity
/// earlier in the result, and occurs once. The entities are added pass after pass over
/// the joints, each joint that touches the growing list appending its geometries in order.
#[verifier::spinoff_prover]
#[verifier::rlimit(40)]
pub fn expand_compounds(selected: &[EntityId], fixes: &[[Option<EntityId>; 2]]) -> (r: Vec<EntityId>)
    ensures
        r@ == expanded_by_fixes(selected@, fixes@, (2 * fixes@.len() + 1) as nat),
        r@.len() >= selected@.len(),
        r@.subrange(0, selected@.len() as int) == selected@,
        forall|i: int| 0 <= i < fixes@.len() && touches(#[trigger] fixes@[i], r@) ==> holds_all(fixes@[i], r@),
        forall|t: int| #![trigger r@[t]] selected@.len() <= t < r@.len() ==> {
            &&& !r@.subrange(0, t).contains(r@[t])
            &&& linked_earlier(fixes@, r@, t)
        },
{
    let ghost universe = fix_geoms(fixes@);
    let mut expanded: Vec<EntityId> = vstd::slice::slice_to_vec(selected);
    let ghost n = selected@.len();
    let ghost bound: nat = (2 * fixes@.len() + 1) as nat;
    let ghost mut passes: nat = 0;
    loop
        invariant
            bound == 2 * fixes@.len() + 1,
            passes <= expanded@.len() - n,
            expanded@.len() - n <= 2 * fixes@.len(),
            expanded_by_fixes(selected@, fixes@, bound) == expanded_by_fixes(
                expanded@,
                fixes@,
                (bound - passes) as nat,
            ),
            expanded@.len() >= n,
            expanded@.subrange(0, n as int) == selected@,
            n == selected@.len(),
            universe == fix_geoms(fixes@),
            forall|t: int| #![trigger expanded@[t]] n <= t < expanded@.len() ==> {
                &&& !expanded@.subrange(0, t).contains(expanded@[t])
                &&& universe.contains(expanded@[t])
                &&& linked_earlier(fixes@, expanded@, t)
            },
        decreases n + universe.len() - expanded@.len(),
    {
        let len = expanded.len();
        let ghost start = expanded@;
        let mut j: usize = 0;
        while j < fixes.len()
            invariant
                0 <= j <= fixes@.len(),
                expanded@.len() >= len,
                expanded@.subrange(0, len as int) == start,
                start.len() == len,
                start.len() >= n,
                start.subrange(0, n as int) == selected@,
                universe == fix_geoms(fixes@),
                expanded@ == pass_upto(start, fixes@, j as int),
                forall|t: int| #![trigger expanded@[t]] n <= t < expanded@.len() ==> {
                    &&& !expanded@.subrange(0, t).contains(expanded@[t])
                    &&& universe.contains(expanded@[t])
                    &&& linked_earlier(fixes@, expanded@, t)
                },
                expanded@.len() == len ==> forall|i: int| 0 <= i < j && touches(#[trigger] fixes@[i], expanded@) ==> holds_all(fixes@[i], expanded@),
            decreases fixes@.len() - j,
        {
            let g = fixes[j];
            let ghost at_j = expanded@;
            let mut hit = false;
            let mut k: usize = 0;
            while k < 2
                invariant
                    0 <= k <= 2,
                    hit == exists|kk: int| 0 <= kk < k && #[trigger] g[kk] is Some && expanded@.contains(g[kk]->0),
                decreases 2 - k,
            {
                if let Some(e) = g[k] {
                    if crate::ids::contains_id(expanded.as_slice(), e) {
                        hit = true;
                    }
                }
                k = k + 1;
            }
            if hit {
                let ghost before = expanded@;
                let ghost witness = choose|kk: int| 0 <= kk < 2 && #[trigger] g[kk] is Some && before.contains(g[kk]->0);
                let mut k2: usize = 0;
                while k2 < 2
                    invariant
                        0 <= k2 <= 2,
                        0 <= j < fixes@.len(),
                        g == fixes@[j as int],
                        expanded@.len() >= before.len(),
                        expanded@.subrange(0, before.len() as int) == before,
                        before.len() >= len,
                        before.subrange(0, len as int) == start,
                        0 <= witness < 2 && g[witness] is Some && before.contains(g[witness]->0),
                        universe == fix_geoms(fixes@),
                        forall|t: int| #![trigger expanded@[t]] n <= t < expanded@.len() ==> {
                            &&& !expanded@.subrange(0, t).contains(expanded@[t])
                            &&& universe.contains(expanded@[t])
                            &&& linked_earlier(fixes@, expanded@, t)
                        },
                        forall|kk: int| 0 <= kk < k2 && #[trigger] g[kk] is Some ==> expanded@.contains(g[kk]->0),
                        expanded@.len() == before.len() ==> expanded@ == before,
                        expanded@ == pushed_geoms(before, g, k2 as int),
                    decreases 2 - k2,
                {
                    if let Some(e) = g[k2] {
                        let ghost cur = expanded@;
                        if !crate::ids::contains_id(expanded.as_slice(), e) {
                            expanded.push(e);
                            proof {
                                let t = cur.len() as int;
                                assert(expanded@.subrange(0, t) =~= cur);
                                let wx = g[witness]->0;
                                let u = choose|u: int| 0 <= u < before.len() && before[u] == wx;
                                assert(expanded@[u] == before[u]);
                                assert(fixes@[j as int][k2 as int] == Some(expanded@[t]));
                                assert(fixes@[j as int][witness] == Some(expanded@[u]));
                                assert(joined_by(fixes@, j as int, k2 as int, witness, expanded@[t], expanded@[u]));
                                lemma_fix_geoms(fixes@, e);
                                assert forall|tt: int| #![trigger expanded@[tt]] n <= tt < expanded@.len() implies {
                                    &&& !expanded@.subrange(0, tt).contains(expanded@[tt])
                                    &&& universe.contains(expanded@[tt])
                                    &&& linked_earlier(fixes@, expanded@, tt)
                                } by {
                                    if tt < t {
                                        assert(expanded@[tt] == cur[tt]);
                                        assert(expanded@.subrange(0, tt) =~= cur.subrange(0, tt));
                                        assert(linked_earlier(fixes@, cur, tt));
                                        let (i0, ka, kb, u0) = choose|i: int, k: int, k2: int, u: int| 0 <= u < tt && #[trigger] joined_by(fixes@, i, k, k2, cur[tt], cur[u]);
                                        assert(expanded@[u0] == cur[u0]);
                                        assert(joined_by(fixes@, i0, ka, kb, expanded@[tt], expanded@[u0]));
                                    }
                                }
                                assert forall|kk: int| 0 <= kk < k2 + 1 && #[trigger] g[kk] is Some implies expanded@.contains(g[kk]->0) by {
                                    if kk < k2 {
                                        let q = choose|q: int| 0 <= q < cur.len() && cur[q] == g[kk]->0;
                                        assert(expanded@[q] == cur[q]);
                                    } else {
                                        assert(expanded@[t] == e);
                                    }
                                }
                            }
                        }
                    }
                    k2 = k2 + 1;
                }
            }
            proof {
                assert(hit == touches(g, at_j));
                assert(expanded@ == joint_step(at_j, g));
                assert(g == fixes@[j as int]);
                assert(pass_upto(start, fixes@, j + 1) == joint_step(pass_upto(start, fixes@, j as int), fixes@[j as int]));
            }
            j = j + 1;
        }
        proof {
            lemma_fix_geoms(fixes@, 0);
            let added = expanded@.subrange(n as int, expanded@.len() as int);
            assert(added.no_duplicates()) by {
                assert forall|a: int, b: int| 0 <= a < added.len() && 0 <= b < added.len() && a != b implies added[a] != added[b] by {
                    let (lo, hi) = if a < b { (a, b) } else { (b, a) };
                    assert(expanded@[n + lo] == added[lo]);
                    assert(expanded@[n + hi] == added[hi]);
                    assert(expanded@.subrange(0, n + hi)[n + lo] == expanded@[n + lo]);
                }
            }
            added.unique_seq_to_set();
            universe.lemma_cardinality_of_set();
            assert(added.to_set().subset_of(universe.to_set())) by {
                assert forall|x: EntityId| added.to_set().contains(x) implies universe.to_set().contains(x) by {
                    let a = choose|a: int| 0 <= a < added.len() && added[a] == x;
                    assert(expanded@[n + a] == x);
                }
            }
            vstd::set_lib::lemma_len_subset(added.to_set(), universe.to_set());
            assert(expanded@.len() - n <= 2 * fixes@.len());
            assert(bound - passes >= 1);
            assert(expanded@ == pass_upto(start, fixes@, fixes@.len() as int));
        }
        if expanded.len() == len {
            proof {
                assert(expanded@ =~= start);
            }
            return expanded;
        }
        proof {
            passes = passes + 1;
        }
    }
}

/// The bodies of `bodies` that no geometry uses any more, in order; the sky body always
/// stays.
pub open spec fn unused_bodies(bodies: Seq<EntityId>, used: Seq<EntityId>, sky: EntityId) -> Seq<EntityId>
    decreases bodies.len(),
{
    if bodies.len() == 0 {
        Seq::empty()
    } else {
        let rest = unused_bodies(bodies.drop_last(), used, sky);
        let b = bodies.last();
        if b != sky && !used.contains(b) {
            rest.push(b)
        } else {
            rest
        }
    }
}

/// The bodies to despawn after a rebuild: those other than the sky that no geometry's
/// collider is attached to.
pub fn bodies_to_despawn(bodies: &[EntityId], used: &[EntityId], sky: EntityId) -> (r: Vec<EntityId>)
    ensures
        r@ == unused_bodies(bodies@, used@, sky),
{
    let mut out: Vec<EntityId> = Vec::new();
    let mut i: usize = 0;
    while i < bodies.len()
        invariant
            0 <= i <= bodies@.len(),
            out@ == unused_bodies(bodies@.subrange(0, i as int), used@, sky),
        decreases bodies@.len() - i,
    {
        proof {
            assert(bodies@.subrange(0, i + 1).drop_last() =~= bodies@.subrange(0, i as int));
        }
        let b = bodies[i];
        if b != sky && !crate::ids::contains_id(used, b) {
            out.push(b);
        }
        i = i + 1;
    }
    proof {
        assert(bodies@.subrange(0, bodies@.len() as int) =~= bodies@);
    }
    out
}

/// A joint of the scene as the weld rebuild sees it: its entity, the entity's index, the
/// geometries it joins (`None` for the sky), whether it is a fix joint, and the physical
/// joint its visual is linked to, if any.
#[derive(Clone, Copy, Debug)]
pub struct JointRecord {
    pub entity: EntityId,
    pub index: u32,
    pub geoms: [Option<EntityId>; 2],
    pub fix: bool,
    pub link: Option<EntityId>,
}

/// A physical joint of an attachment: its entity, its visual, and whether the visual
/// entity exists.
#[derive(Clone, Copy, Debug)]
pub struct AttachmentJointRecord {
    pub entity: EntityId,
    pub visual: EntityId,
    pub visual_exists: bool,
}

/// A joint has lost its geometry: it has none at all, or one of them is no longer one.
pub open spec fn joint_is_stale(geoms: [Option<EntityId>; 2], geometries: Seq<EntityId>) -> bool {
    (geoms[0] is None && geoms[1] is None) || (exists|k: int|
        0 <= k < 2 && #[trigger] geoms[k] is Some && !geometries.contains(geoms[k]->0))
}

/// A spring has lost a body: one of its ends is on an entity that is no longer a geometry.
pub open spec fn spring_is_stale(ends: [Option<EntityId>; 2], geometries: Seq<EntityId>) -> bool {
    exists|k: int| 0 <= k < 2 && #[trigger] ends[k] is Some && !geometries.contains(ends[k]->0)
}

/// The entities of the stale joints, in order.
pub open spec fn stale_joint_entities(joints: Seq<JointRecord>, geometries: Seq<EntityId>) -> Seq<EntityId>
    decreases joints.len(),
{
    if joints.len() == 0 {
        Seq::empty()
    } else {
        let rest = stale_joint_entities(joints.drop_last(), geometries);
        if joint_is_stale(joints.last().geoms, geometries) {
            rest.push(joints.last().entity)
        } else {
            rest
        }
    }
}

/// The stale springs, in order.
pub open spec fn stale_spring_entities(
    springs: Seq<(EntityId, [Option<EntityId>; 2])>,
    geometries: Seq<EntityId>,
) -> Seq<EntityId>
    decreases springs.len(),
{
    if springs.len() == 0 {
        Seq::empty()
    } else {
        let rest = stale_spring_entities(springs.drop_last(), geometries);
        if spring_is_stale(springs.last().1, geometries) {
            rest.push(springs.last().0)
        } else {
            rest
        }
    }
}

/// `s` with `x` inserted after every item whose key is not greater than its own (the
/// step of a stable sort by key).
pub open spec fn insert_by_key(s: Seq<(u32, WeldEdge)>, x: (u32, WeldEdge)) -> Seq<(u32, WeldEdge)>
    decreases s.len(),
{
    if s.len() == 0 {
        seq![x]
    } else if s.last().0 <= x.0 {
        s.push(x)
    } else {
        insert_by_key(s.drop_last(), x).push(s.last())
    }
}

/// The fix joints that are not stale, as keyed edges, stably sorted by their entity's
/// index.
pub open spec fn keyed_fix_edges(joints: Seq<JointRecord>, geometries: Seq<EntityId>) -> Seq<
    (u32, WeldEdge),
>
    decreases joints.len(),
{
    if joints.len() == 0 {
        Seq::empty()
    } else {
        let rest = keyed_fix_edges(joints.drop_last(), geometries);
        let j = joints.last();
        if j.fix && !joint_is_stale(j.geoms, geometries) {
            insert_by_key(rest, (j.index, (j.entity, j.geoms)))
        } else {
            rest
        }
    }
}

/// The weld graph: the fix joints that are not stale, ordered by entity index.
pub open spec fn fix_edges(joints: Seq<JointRecord>, geometries: Seq<EntityId>) -> Seq<WeldEdge> {
    keyed_fix_edges(joints, geometries).map_values(|e: (u32, WeldEdge)| e.1)
}

proof fn lemma_insert_at(s: Seq<(u32, WeldEdge)>, x: (u32, WeldEdge), p: int)
    requires
        0 <= p <= s.len(),
        p == 0 || s[p - 1].0 <= x.0,
        forall|j: int| p <= j < s.len() ==> #[trigger] s[j].0 > x.0,
    ensures
        insert_by_key(s, x) == s.insert(p, x),
    decreases s.len(),
{
    if s.len() == 0 {
        assert(s.insert(p, x) =~= seq![x]);
    } else if p == s.len() {
        assert(s.insert(p, x) =~= s.push(x));
    } else {
        assert(s.last().0 > x.0);
        lemma_insert_at(s.drop_last(), x, p);
        assert(s.insert(p, x) =~= s.drop_last().insert(p, x).push(s.last()));
    }
}

/// Keys never decrease along `s`.
pub open spec fn keys_sorted(s: Seq<(u32, WeldEdge)>) -> bool {
    forall|i: int, j: int| 0 <= i < j < s.len() ==> s[i].0 <= s[j].0
}

proof fn lemma_insert_sorted(s: Seq<(u32, WeldEdge)>, x: (u32, WeldEdge))
    requires
        keys_sorted(s),
    ensures
        keys_sorted(insert_by_key(s, x)),
        insert_by_key(s, x).to_multiset() == s.to_multiset().insert(x),
    decreases s.len(),
{
    broadcast use vstd::seq_lib::group_to_multiset_ensures;

    if s.len() == 0 {
        assert(seq![x] =~= Seq::<(u32, WeldEdge)>::empty().push(x));
    } else if s.last().0 <= x.0 {
    } else {
        let d = s.drop_last();
        assert(keys_sorted(d));
        lemma_insert_sorted(d, x);
        let t = insert_by_key(d, x);
        assert(s =~= d.push(s.last()));
        assert forall|i: int, j: int| 0 <= i < j < t.push(s.last()).len() implies t.push(s.last())[i].0
            <= t.push(s.last())[j].0 by {
            if j == t.len() {
                let v = t[i];
                assert(t.to_multiset().count(v) > 0) by {
                    assert(t.contains(v));
                    t.to_multiset_ensures();
                }
                assert(v == x || d.to_multiset().count(v) > 0);
                if v != x {
                    d.to_multiset_ensures();
                    let k = choose|k: int| 0 <= k < d.len() && d[k] == v;
                    assert(s[k] == v);
                }
            }
        }
    }
}

/// The live fix joints as keyed edges, in the order the joints come.
pub open spec fn live_fix_joints(joints: Seq<JointRecord>, geometries: Seq<EntityId>) -> Seq<(u32, WeldEdge)>
    decreases joints.len(),
{
    if joints.len() == 0 {
        Seq::empty()
    } else {
        let rest = live_fix_joints(joints.drop_last(), geometries);
        let j = joints.last();
        if j.fix && !joint_is_stale(j.geoms, geometries) {
            rest.push((j.index, (j.entity, j.geoms)))
        } else {
            rest
        }
    }
}

/// Law: the weld graph is the live fix joints ordered by entity index: its keys never
/// decrease, and it holds each live fix joint as often as the scene does.
pub proof fn lemma_fix_edges_sorted(joints: Seq<JointRecord>, geometries: Seq<EntityId>)
    ensures
        keys_sorted(keyed_fix_edges(joints, geometries)),
        keyed_fix_edges(joints, geometries).to_multiset() == live_fix_joints(joints, geometries).to_multiset(),
    decreases joints.len(),
{
    broadcast use vstd::seq_lib::group_to_multiset_ensures;

    if joints.len() > 0 {
        lemma_fix_edges_sorted(joints.drop_last(), geometries);
        let j = joints.last();
        if j.fix && !joint_is_stale(j.geoms, geometries) {
            lemma_insert_sorted(keyed_fix_edges(joints.drop_last(), geometries), (j.index, (j.entity, j.geoms)));
        }
    }
}

/// The physical joints linked from the stale joints, in order.
pub open spec fn stale_joint_links(joints: Seq<JointRecord>, geometries: Seq<EntityId>) -> Seq<EntityId>
    decreases joints.len(),
{
    if joints.len() == 0 {
        Seq::empty()
    } else {
        let rest = stale_joint_links(joints.drop_last(), geometries);
        let j = joints.last();
        if joint_is_stale(j.geoms, geometries) && j.link is Some {
            rest.push(j.link->0)
        } else {
            rest
        }
    }
}

/// The attachment joints left without a visual once `removed` is gone: each that is not
/// itself removed and whose visual no longer exists or is removed, in order.
pub open spec fn orphaned_joints(att: Seq<AttachmentJointRecord>, removed: Seq<EntityId>) -> Seq<EntityId>
    decreases att.len(),
{
    if att.len() == 0 {
        Seq::empty()
    } else {
        let rest = orphaned_joints(att.drop_last(), removed);
        let a = att.last();
        if !removed.contains(a.entity) && (!a.visual_exists || removed.contains(a.visual)) {
            rest.push(a.entity)
        } else {
            rest
        }
    }
}

/// What a weld rebuild does: the joints to remove because they lost a geometry and the
/// physical joints linked from them, the springs that lost a body, the attachment joints
/// whose visual is then gone, the weld graph (live fix joints by entity index), and whether
/// the graph changed, so that the welded bodies must be regrouped.
pub struct RebuildPlan {
    pub stale_joints: Vec<EntityId>,
    pub stale_links: Vec<EntityId>,
    pub stale_springs: Vec<EntityId>,
    pub orphaned_joints: Vec<EntityId>,
    pub edges: Vec<WeldEdge>,
    pub regroup: bool,
}

fn contains_removed(a: &[EntityId], b: &[EntityId], c: &[EntityId], x: EntityId) -> (r: bool)
    ensures
        r == (a@ + b@ + c@).contains(x),
{
    let r = crate::ids::contains_id(a, x) || crate::ids::contains_id(b, x) || crate::ids::contains_id(c, x);
    proof {
        let s = a@ + b@ + c@;
        if r {
            if a@.contains(x) {
                let i = choose|i: int| 0 <= i < a@.len() && a@[i] == x;
                assert(s[i] == x);
            } else if b@.contains(x) {
                let i = choose|i: int| 0 <= i < b@.len() && b@[i] == x;
                assert(s[a@.len() + i] == x);
            } else {
                let i = choose|i: int| 0 <= i < c@.len() && c@[i] == x;
                assert(s[a@.len() + b@.len() + i] == x);
            }
        } else if s.contains(x) {
            let i = choose|i: int| 0 <= i < s.len() && s[i] == x;
            if i < a@.len() {
                assert(a@[i] == x);
            } else if i < a@.len() + b@.len() {
                assert(b@[i - a@.len()] == x);
            } else {
                assert(c@[i - a@.len() - b@.len()] == x);
            }
        }
    }
    r
}

/// Plans a weld rebuild over the current geometries, joints and springs (`(spring, ends)`,
/// an end `None` in the sky) and attachment joints, given the weld graph of the last
/// rebuild. Bodies are regrouped only when the fix-joint graph changed.
pub fn rebuild_plan(
    geometries: &[EntityId],
    joints: &[JointRecord],
    springs: &[(EntityId, [Option<EntityId>; 2])],
    attachment_joints: &[AttachmentJointRecord],
    previous: &[WeldEdge],
) -> (r: RebuildPlan)
    ensures
        r.stale_joints@ == stale_joint_entities(joints@, geometries@),
        r.stale_links@ == stale_joint_links(joints@, geometries@),
        r.stale_springs@ == stale_spring_entities(springs@, geometries@),
        r.orphaned_joints@ == orphaned_joints(
            attachment_joints@,
            r.stale_joints@ + r.stale_links@ + r.stale_springs@,
        ),
        r.edges@ == fix_edges(joints@, geometries@),
        r.regroup == (r.edges@ != previous@),
{
    let mut stale_joints: Vec<EntityId> = Vec::new();
    let mut stale_links: Vec<EntityId> = Vec::new();
    let mut keyed: Vec<(u32, WeldEdge)> = Vec::new();
    let mut i: usize = 0;
    while i < joints.len()
        invariant
            0 <= i <= joints@.len(),
            stale_joints@ == stale_joint_entities(joints@.subrange(0, i as int), geometries@),
            stale_links@ == stale_joint_links(joints@.subrange(0, i as int), geometries@),
            keyed@ == keyed_fix_edges(joints@.subrange(0, i as int), geometries@),
        decreases joints@.len() - i,
    {
        proof {
            assert(joints@.subrange(0, i + 1).drop_last() =~= joints@.subrange(0, i as int));
        }
        let j = joints[i];
        if is_stale_joint(j.geoms, geometries) {
            stale_joints.push(j.entity);
            if let Some(link) = j.link {
                stale_links.push(link);
            }
        } else if j.fix {
            let x: (u32, WeldEdge) = (j.index, (j.entity, j.geoms));
            proof {
                lemma_fix_edges_sorted(joints@.subrange(0, i as int), geometries@);
            }
            let ghost before = keyed@;
            let mut p: usize = keyed.len();
            while p > 0 && keyed[p - 1].0 > x.0
                invariant
                    0 <= p <= keyed@.len(),
                    keyed@ == before,
                    keys_sorted(before),
                    forall|k: int| p <= k < before.len() ==> #[trigger] before[k].0 > x.0,
                decreases p,
            {
                p = p - 1;
            }
            proof {
                lemma_insert_at(before, x, p as int);
            }
            keyed.insert(p, x);
        }
        i = i + 1;
    }
    proof {
        assert(joints@.subrange(0, joints@.len() as int) =~= joints@);
    }
    let mut stale_springs: Vec<EntityId> = Vec::new();
    let mut k: usize = 0;
    while k < springs.len()
        invariant
            0 <= k <= springs@.len(),
            stale_springs@ == stale_spring_entities(springs@.subrange(0, k as int), geometries@),
        decreases springs@.len() - k,
    {
        proof {
            assert(springs@.subrange(0, k + 1).drop_last() =~= springs@.subrange(0, k as int));
        }
        let (spring, ends) = springs[k];
        if is_stale_spring(ends, geometries) {
            stale_springs.push(spring);
        }
        k = k + 1;
    }
    proof {
        assert(springs@.subrange(0, springs@.len() as int) =~= springs@);
    }
    let mut edges: Vec<WeldEdge> = Vec::new();
    let mut e: usize = 0;
    while e < keyed.len()
        invariant
            0 <= e <= keyed@.len(),
            edges@ == keyed@.subrange(0, e as int).map_values(|x: (u32, WeldEdge)| x.1),
        decreases keyed@.len() - e,
    {
        proof {
            assert(keyed@.subrange(0, e + 1).map_values(|x: (u32, WeldEdge)| x.1) =~= keyed@.subrange(
                0,
                e as int,
            ).map_values(|x: (u32, WeldEdge)| x.1).push(keyed@[e as int].1));
        }
        edges.push(keyed[e].1);
        e = e + 1;
    }
    proof {
        assert(keyed@.subrange(0, keyed@.len() as int) =~= keyed@);
    }
    let ghost removed = stale_joints@ + stale_links@ + stale_springs@;
    let mut orphaned: Vec<EntityId> = Vec::new();
    let mut a: usize = 0;
    while a < attachment_joints.len()
        invariant
            0 <= a <= attachment_joints@.len(),
            removed == stale_joints@ + stale_links@ + stale_springs@,
            orphaned@ == orphaned_joints(attachment_joints@.subrange(0, a as int), removed),
        decreases attachment_joints@.len() - a,
    {
        proof {
            assert(attachment_joints@.subrange(0, a + 1).drop_last() =~= attachment_joints@.subrange(
                0,
                a as int,
            ));
        }
        let rec = attachment_joints[a];
        let gone = contains_removed(stale_joints.as_slice(), stale_links.as_slice(), stale_springs.as_slice(), rec.entity);
        let visual_gone = !rec.visual_exists || contains_removed(
            stale_joints.as_slice(),
            stale_links.as_slice(),
            stale_springs.as_slice(),
            rec.visual,
        );
        if !gone && visual_gone {
            orphaned.push(rec.entity);
        }
        a = a + 1;
    }
    proof {
        assert(attachment_joints@.subrange(0, attachment_joints@.len() as int) =~= attachment_joints@);
    }
    let regroup = !same_topology(edges.as_slice(), previous);
    RebuildPlan {
        stale_joints,
        stale_links,
        stale_springs,
        orphaned_joints: orphaned,
        edges,
        regroup,
    }
}

/// Law: welded bodies are regrouped only when the fix-joint graph changes. When a rebuild
/// does not regroup, its graph is the last one, so every geometry keeps the representative
/// (and the group) the last rebuild gave it.
pub proof fn lemma_unchanged_graph_keeps_groups(
    dom: Set<EntityId>,
    joints: Seq<JointRecord>,
    geometries: Seq<EntityId>,
    previous: Seq<WeldEdge>,
)
    requires
        fix_edges(joints, geometries) == previous,
    ensures
        welded_reps(dom, fix_edges(joints, geometries)) == welded_reps(dom, previous),
{
}

/// Law: planes and sky welds anchor their whole group. A welded group with a plane among
/// its geometries, or with a geometry fixed to the sky, is static and goes on the sky
/// body.
pub proof fn lemma_anchored_groups_are_static(
    gs: Seq<WeldGeometry>,
    edges: Seq<WeldEdge>,
    comps: Seq<WeldComponent>,
    i: int,
    sky: EntityId,
    m: EntityId,
)
    requires
        0 <= i < comps.len(),
        group_ok(gs, edges, comps, i, sky),
        comps[i].members@.contains(m),
        geometry_of(gs, m).is_plane || sky_welded(geometry_set(gs), edges, m),
    ensures
        comps[i].is_static,
        comps[i].body == BodyChoice::Sky,
{
    let c = comps[i];
    let ms = c.members@;
    let rep = welded_reps(geometry_set(gs), edges);
    assert(has_state(gs, m) && rep[m] == c.root);
    if geometry_of(gs, m).is_plane {
        let a = choose|a: int| 0 <= a < ms.len() && ms[a] == m;
        assert(geometry_of(gs, ms[a]).is_plane);
    } else {
        assert(sky_welded(geometry_set(gs), edges, m) && rep[m] == c.root);
    }
}

proof fn lemma_first_free_body_is_listed(bodies: Seq<EntityId>, used: Set<EntityId>, sky: EntityId)
    ensures
        first_free_body(bodies, used, sky) is Some ==> bodies.contains(first_free_body(bodies, used, sky)->0),
    decreases bodies.len(),
{
    if bodies.len() > 0 {
        lemma_first_free_body_is_listed(bodies.drop_first(), used, sky);
        if !(bodies[0] != sky && !used.contains(bodies[0])) && first_free_body(bodies, used, sky) is Some {
            let k = choose|k: int| 0 <= k < bodies.drop_first().len() && bodies.drop_first()[k] == first_free_body(bodies, used, sky)->0;
            assert(bodies[k + 1] == bodies.drop_first()[k]);
        }
        if bodies[0] != sky && !used.contains(bodies[0]) {
            assert(bodies[0] == first_free_body(bodies, used, sky)->0);
        }
    }
}

/// Law: a group that is not static never goes on the sky body. It reuses the body of one of
/// its own geometries, never the sky's, or gets a new body; when the body of its first
/// geometry is not the sky's and no earlier group took it, that is the body it keeps.
pub proof fn lemma_dynamic_groups_reuse_their_own_body(
    gs: Seq<WeldGeometry>,
    edges: Seq<WeldEdge>,
    comps: Seq<WeldComponent>,
    i: int,
    sky: EntityId,
    b: EntityId,
)
    requires
        distinct_geometries(gs),
        0 <= i < comps.len(),
        group_ok(gs, edges, comps, i, sky),
        !comps[i].is_static,
    ensures
        comps[i].body != BodyChoice::Sky,
        comps[i].body == BodyChoice::Existing(b) ==> b != sky && exists|a: int|
            0 <= a < comps[i].members@.len() && geometry_of(gs, #[trigger] comps[i].members@[a]).body == Some(b),
        (comps[i].members@.len() > 0 && geometry_of(gs, comps[i].members@[0]).body == Some(b) && b != sky
            && !bodies_taken(comps.map_values(|w: WeldComponent| w.body), i).contains(b))
            ==> comps[i].body == BodyChoice::Existing(b),
{
    let c = comps[i];
    let ms = c.members@;
    let bodies = member_bodies(gs, ms);
    let used = bodies_taken(comps.map_values(|w: WeldComponent| w.body), i);
    lemma_first_free_body(bodies, used, sky);
    lemma_first_free_body_is_listed(bodies, used, sky);
    if c.body == BodyChoice::Existing(b) {
        let k = choose|k: int| 0 <= k < bodies.len() && bodies[k] == b;
        let m = ms[k];
        assert(ms.contains(m));
        assert(has_state(gs, m));
        let j = choose|j: int| 0 <= j < gs.len() && #[trigger] gs[j].entity == m && gs[j].body is Some;
        lemma_geometry_of(gs, j);
        assert(geometry_of(gs, ms[k]).body == Some(b));
    }
    if ms.len() > 0 && geometry_of(gs, ms[0]).body == Some(b) && b != sky && !used.contains(b) {
        assert(bodies.len() > 0);
        assert(bodies[0] == b);
    }
}

/// Law: a rebuild removes exactly the joints that lost their geometry: those joining
/// nothing, or naming an entity that is no longer a geometry; every other joint stays.
pub proof fn lemma_stale_joints_lost_a_geometry(joints: Seq<JointRecord>, geometries: Seq<EntityId>, x: EntityId)
    ensures
        stale_joint_entities(joints, geometries).contains(x) <==> exists|i: int|
            0 <= i < joints.len() && #[trigger] joints[i].entity == x && ((joints[i].geoms[0] is None
                && joints[i].geoms[1] is None) || (joints[i].geoms[0] is Some && !geometries.contains(
                joints[i].geoms[0]->0)) || (joints[i].geoms[1] is Some && !geometries.contains(
                joints[i].geoms[1]->0))),
    decreases joints.len(),
{
    if joints.len() > 0 {
        let p = joints.drop_last();
        lemma_stale_joints_lost_a_geometry(p, geometries, x);
        let rest = stale_joint_entities(p, geometries);
        let j = joints.last();
        let g = j.geoms;
        let lost = (g[0] is None && g[1] is None) || (g[0] is Some && !geometries.contains(g[0]->0)) || (
        g[1] is Some && !geometries.contains(g[1]->0));
        assert(joint_is_stale(g, geometries) == lost) by {
            if (g[0] is Some && !geometries.contains(g[0]->0)) {
                assert(g[0] is Some && !geometries.contains(g[0]->0));
            }
            if (g[1] is Some && !geometries.contains(g[1]->0)) {
                assert(g[1] is Some && !geometries.contains(g[1]->0));
            }
        }
        lemma_push_contains(rest, j.entity, x);
        if exists|i: int| 0 <= i < p.len() && #[trigger] p[i].entity == x && ((p[i].geoms[0] is None
            && p[i].geoms[1] is None) || (p[i].geoms[0] is Some && !geometries.contains(p[i].geoms[0]->0))
            || (p[i].geoms[1] is Some && !geometries.contains(p[i].geoms[1]->0))) {
            let i = choose|i: int| 0 <= i < p.len() && #[trigger] p[i].entity == x && ((p[i].geoms[0] is None
                && p[i].geoms[1] is None) || (p[i].geoms[0] is Some && !geometries.contains(p[i].geoms[0]->0))
                || (p[i].geoms[1] is Some && !geometries.contains(p[i].geoms[1]->0)));
            assert(joints[i] == p[i]);
        }
        if exists|i: int| 0 <= i < joints.len() && #[trigger] joints[i].entity == x && ((joints[i].geoms[0] is None
            && joints[i].geoms[1] is None) || (joints[i].geoms[0] is Some && !geometries.contains(
            joints[i].geoms[0]->0)) || (joints[i].geoms[1] is Some && !geometries.contains(joints[i].geoms[1]->0))) {
            let i = choose|i: int| 0 <= i < joints.len() && #[trigger] joints[i].entity == x && ((
            joints[i].geoms[0] is None && joints[i].geoms[1] is None) || (joints[i].geoms[0] is Some
                && !geometries.contains(joints[i].geoms[0]->0)) || (joints[i].geoms[1] is Some && !geometries.contains(
                joints[i].geoms[1]->0)));
            if i < p.len() {
                assert(p[i] == joints[i]);
            } else {
                assert(joints[i] == j);
            }
        }
    }
}

} // verus!
