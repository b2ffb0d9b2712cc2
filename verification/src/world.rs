//! The modelled world.
//!
//! Entities are indices into a spawn-ordered table. Each entity carries its
//! parent link, an optional sandbox (making it the root of an access
//! domain), the domain tag it currently belongs to, the mod that created it,
//! and its serialized component values keyed by component id.
//!
//! The central invariant is that every entity's tag equals its nearest
//! strict-ancestor sandbox root: a sandbox root is excluded from its own
//! domain, and a nested root's descendants belong to the nested domain.
//!
//! The entity hierarchy is a spawn-ordered forest: every parent strictly
//! precedes its children in the table (`spec_parents_wf`). This invariant
//! stands in for acyclicity — it is what makes the nearest-ancestor domain
//! walk well-founded — and every structural operation, reparenting
//! included, preserves it.

use vstd::prelude::*;

use crate::schedule::{ModSchedules, ModScheduleModel};

verus! {

/// The component id standing for the presence of any sandbox tag.
///
/// Every sandbox marker id is distinct from it.
pub const SANDBOXED_MARKER: u64 = 0;

/// The sandbox payload of a domain root: its unique marker id and the
/// schedules its mods may run in.
pub struct SandboxData {
    pub marker: u64,
    pub schedules: ModSchedules,
}

/// Mathematical model of a `SandboxData`.
pub ghost struct SandboxModel {
    pub marker: u64,
    pub schedules: Seq<ModScheduleModel>,
}

impl View for SandboxData {
    type V = SandboxModel;

    open spec fn view(&self) -> SandboxModel {
        SandboxModel { marker: self.marker, schedules: self.schedules@ }
    }
}

/// One world entity.
pub struct EntityRec {
    pub alive: bool,
    pub parent: Option<usize>,
    pub sandbox: Option<SandboxData>,
    pub tag: Option<usize>,
    pub created_by: Option<usize>,
    pub components: Vec<(u64, String)>,
}

/// The component table of an entity, as id/value pairs.
pub open spec fn spec_comps_view(v: Seq<(u64, String)>) -> Seq<(u64, Seq<char>)> {
    Seq::new(v.len(), |i: int| (v[i].0, v[i].1@))
}

/// Mathematical model of an `EntityRec`.
pub ghost struct EntityModel {
    pub alive: bool,
    pub parent: Option<usize>,
    pub sandbox: Option<SandboxModel>,
    pub tag: Option<usize>,
    pub created_by: Option<usize>,
    pub components: Seq<(u64, Seq<char>)>,
}

impl View for EntityRec {
    type V = EntityModel;

    open spec fn view(&self) -> EntityModel {
        EntityModel {
            alive: self.alive,
            parent: self.parent,
            sandbox: match self.sandbox {
                Some(sb) => Some(sb@),
                None => None,
            },
            tag: self.tag,
            created_by: self.created_by,
            components: spec_comps_view(self.components@),
        }
    }
}

impl DeepView for EntityRec {
    type V = EntityModel;

    open spec fn deep_view(&self) -> EntityModel {
        self.view()
    }
}

/// Mathematical model of a `World`.
pub ghost struct WorldModel {
    pub entities: Seq<EntityModel>,
    pub next_marker: u64,
}

/// The nearest strict-ancestor sandbox root of entity `i`: walking parent
/// links upward, the first entity that carries a sandbox.
pub open spec fn spec_domain_of(s: Seq<EntityModel>, i: int) -> Option<usize>
    decreases i,
{
    if 0 <= i < s.len() {
        match s[i].parent {
            Some(p) => if (p as int) < i {
                if s[p as int].sandbox is Some {
                    Some(p)
                } else {
                    spec_domain_of(s, p as int)
                }
            } else {
                None
            },
            None => None,
        }
    } else {
        None
    }
}

/// Parents precede their children in spawn order.
pub open spec fn spec_parents_wf(s: Seq<EntityModel>) -> bool {
    forall|i: int|
        0 <= i < s.len() ==> (#[trigger] s[i].parent matches Some(p) ==> (p as int) < i)
}

/// Every tag equals the entity's nearest strict-ancestor sandbox root.
pub open spec fn spec_tags_wf(s: Seq<EntityModel>) -> bool {
    forall|i: int| 0 <= i < s.len() ==> #[trigger] s[i].tag == spec_domain_of(s, i)
}

/// Sandbox markers are positive, below the allocation cursor, and unique.
pub open spec fn spec_markers_wf(s: Seq<EntityModel>, next_marker: u64) -> bool {
    &&& 1 <= next_marker
    &&& forall|i: int|
        0 <= i < s.len() ==> (#[trigger] s[i].sandbox matches Some(sb) ==> 1 <= sb.marker
            < next_marker)
    &&& forall|i: int, j: int|
        0 <= i < j < s.len() && s[i].sandbox is Some && s[j].sandbox is Some
            ==> (#[trigger] s[i].sandbox)->0.marker != (#[trigger] s[j].sandbox)->0.marker
}

/// Component ids are unique within each entity.
pub open spec fn spec_comps_wf(s: Seq<EntityModel>) -> bool {
    forall|i: int, a: int, b: int|
        0 <= i < s.len() && 0 <= a < b < s[i].components.len() ==> (#[trigger] s[i].components[a]).0
            != (#[trigger] s[i].components[b]).0
}

/// The world: the live store of entities.
pub struct World {
    entities: Vec<EntityRec>,
    next_marker: u64,
}

impl View for World {
    type V = WorldModel;

    closed spec fn view(&self) -> WorldModel {
        WorldModel { entities: self.entities.deep_view(), next_marker: self.next_marker }
    }
}

/// How two entity records may differ during a retag pass: everything but the
/// tag agrees.
pub open spec fn spec_same_shape(a: EntityModel, b: EntityModel) -> bool {
    a.alive == b.alive && a.parent == b.parent && a.sandbox == b.sandbox && a.created_by
        == b.created_by && a.components == b.components
}

/// The tag a fresh child of `parent` receives.
pub open spec fn spec_child_tag(s: Seq<EntityModel>, parent: Option<usize>) -> Option<usize> {
    match parent {
        None => None,
        Some(p) => if s[p as int].sandbox is Some {
            Some(p)
        } else {
            s[p as int].tag
        },
    }
}

/// The domain walk never reads tags and never reads a sandbox payload, so it
/// is stable under any change that keeps parents and sandbox presence.
proof fn lemma_domain_stable(s1: Seq<EntityModel>, s2: Seq<EntityModel>, i: int)
    requires
        s1.len() == s2.len(),
        forall|k: int|
            0 <= k < s1.len() ==> (#[trigger] s1[k]).parent == s2[k].parent && (s1[k].sandbox
                is Some <==> (#[trigger] s2[k]).sandbox is Some),
    ensures
        spec_domain_of(s1, i) == spec_domain_of(s2, i),
    decreases i,
{
    if 0 <= i < s1.len() {
        match s1[i].parent {
            Some(p) => {
                if (p as int) < i && s1[p as int].sandbox is None {
                    lemma_domain_stable(s1, s2, p as int);
                }
            },
            None => {},
        }
    }
}

/// Appending entities never changes the domain of the ones already present.
proof fn lemma_domain_push(s: Seq<EntityModel>, x: EntityModel, i: int)
    requires
        0 <= i < s.len(),
    ensures
        spec_domain_of(s.push(x), i) == spec_domain_of(s, i),
    decreases i,
{
    match s[i].parent {
        Some(p) => {
            if (p as int) < i && s[p as int].sandbox is None {
                lemma_domain_push(s, x, p as int);
            }
        },
        None => {},
    }
}

impl World {
    /// Everything the other operations rely on.
    pub open spec fn wf(self) -> bool {
        &&& spec_parents_wf(self@.entities)
        &&& spec_tags_wf(self@.entities)
        &&& spec_markers_wf(self@.entities, self@.next_marker)
        &&& spec_comps_wf(self@.entities)
    }

    /// An empty world.
    pub fn new() -> (r: World)
        ensures
            r.wf(),
            r@.entities =~= Seq::<EntityModel>::empty(),
            r@.next_marker == 1,
    {
        let r = World { entities: Vec::new(), next_marker: 1 };
        proof {
            assert(r@.entities =~= Seq::<EntityModel>::empty());
        }
        r
    }

    /// The number of entities ever spawned.
    pub fn len(&self) -> (r: usize)
        ensures
            r == self@.entities.len(),
    {
        self.entities.len()
    }

    /// Spawn a new entity under the given parent.
    ///
    /// The child's tag is its parent when the parent is a sandbox root, and
    /// otherwise the parent's own tag; an orphan has none.
    pub fn spawn(&mut self, parent: Option<usize>) -> (e: usize)
        requires
            old(self).wf(),
            parent matches Some(p) ==> (p as int) < old(self)@.entities.len(),
        ensures
            final(self).wf(),
            e == old(self)@.entities.len(),
            final(self)@.next_marker == old(self)@.next_marker,
            final(self)@.entities =~= old(self)@.entities.push(
                EntityModel {
                    alive: true,
                    parent: parent,
                    sandbox: None,
                    tag: spec_child_tag(old(self)@.entities, parent),
                    created_by: None,
                    components: Seq::empty(),
                },
            ),
    {
        let e = self.entities.len();
        let tag: Option<usize> = match parent {
            None => None,
            Some(p) => {
                if self.entities[p].sandbox.is_some() {
                    Some(p)
                } else {
                    self.entities[p].tag
                }
            },
        };
        let rec = EntityRec {
            alive: true,
            parent,
            sandbox: None,
            tag,
            created_by: None,
            components: Vec::new(),
        };
        proof {
            assert(rec@.components =~= Seq::<(u64, Seq<char>)>::empty());
        }
        let ghost old_s = self@.entities;
        self.entities.push(rec);
        proof {
            let s = self@.entities;
            assert(s =~= old_s.push(rec@));
            assert forall|i: int| 0 <= i < s.len() implies #[trigger] s[i].tag == spec_domain_of(
                s,
                i,
            ) by {
                if i < old_s.len() {
                    lemma_domain_push(old_s, rec@, i);
                } else {
                    assert(s[i] == rec@);
                    match parent {
                        Some(p) => {
                            if old_s[p as int].sandbox is None {
                                lemma_domain_push(old_s, rec@, p as int);
                            }
                        },
                        None => {},
                    }
                }
            }
        }
        e
    }

    /// Recompute every tag from the parent and sandbox layout, in spawn
    /// order.
    fn retag_all(&mut self)
        requires
            spec_parents_wf(old(self)@.entities),
        ensures
            final(self)@.next_marker == old(self)@.next_marker,
            final(self)@.entities.len() == old(self)@.entities.len(),
            forall|k: int|
                0 <= k < old(self)@.entities.len() ==> spec_same_shape(
                    #[trigger] final(self)@.entities[k],
                    old(self)@.entities[k],
                ),
            spec_tags_wf(final(self)@.entities),
    {
        let n = self.entities.len();
        let mut i: usize = 0;
        while i < n
            invariant
                0 <= i <= n,
                n == self@.entities.len(),
                spec_parents_wf(self@.entities),
                self@.next_marker == old(self)@.next_marker,
                self@.entities.len() == old(self)@.entities.len(),
                forall|k: int|
                    0 <= k < n ==> spec_same_shape(
                        #[trigger] self@.entities[k],
                        old(self)@.entities[k],
                    ),
                forall|k: int|
                    0 <= k < i ==> #[trigger] self@.entities[k].tag == spec_domain_of(
                        self@.entities,
                        k,
                    ),
            decreases n - i,
        {
            let ghost pre = self@.entities;
            proof {
                assert(pre[i as int] == self.entities@[i as int]@);
                assert(pre[i as int].parent matches Some(p) ==> (p as int) < i as int
                    && pre[p as int] == self.entities@[p as int]@);
            }
            let t: Option<usize> = match self.entities[i].parent {
                None => None,
                Some(p) => {
                    if self.entities[p].sandbox.is_some() {
                        Some(p)
                    } else {
                        self.entities[p].tag
                    }
                },
            };
            let rec = &mut self.entities[i];
            rec.tag = t;
            proof {
                let s = self@.entities;
                assert(s =~= pre.update(i as int, EntityModel { tag: t, ..pre[i as int] }));
                assert forall|k: int| 0 <= k < n implies spec_same_shape(
                    #[trigger] s[k],
                    old(self)@.entities[k],
                ) by {
                    assert(spec_same_shape(pre[k], old(self)@.entities[k]));
                }
                assert forall|k: int|
                    0 <= k < s.len() implies (#[trigger] s[k].parent matches Some(p) ==> (
                p as int) < k) by {
                    assert(spec_same_shape(s[k], old(self)@.entities[k]));
                }
                assert forall|k: int| 0 <= k <= i implies #[trigger] s[k].tag == spec_domain_of(
                    s,
                    k,
                ) by {
                    lemma_domain_stable(pre, s, k);
                    if k < i {
                        assert(pre[k].tag == spec_domain_of(pre, k));
                        assert(s[k].tag == pre[k].tag);
                    } else {
                        match s[k].parent {
                            Some(p) => {
                                if s[p as int].sandbox is None {
                                    lemma_domain_stable(pre, s, p as int);
                                    assert(pre[p as int].tag == spec_domain_of(pre, p as int));
                                }
                            },
                            None => {},
                        }
                    }
                }
            }
            i = i + 1;
        }
    }

    /// Turn an entity into the root of a new access domain.
    ///
    /// A fresh marker is allocated and every tag in the world is brought back
    /// in line with the new sandbox layout. Returns the new marker.
    pub fn add_sandbox(&mut self, e: usize, schedules: ModSchedules) -> (marker: u64)
        requires
            old(self).wf(),
            (e as int) < old(self)@.entities.len(),
            old(self)@.entities[e as int].sandbox is None,
            old(self)@.next_marker < u64::MAX,
        ensures
            final(self).wf(),
            marker == old(self)@.next_marker,
            final(self)@.next_marker == old(self)@.next_marker + 1,
            final(self)@.entities.len() == old(self)@.entities.len(),
            forall|k: int|
                0 <= k < old(self)@.entities.len() && k != e ==> spec_same_shape(
                    #[trigger] final(self)@.entities[k],
                    old(self)@.entities[k],
                ),
            final(self)@.entities[e as int].sandbox matches Some(sb) && sb.marker == marker
                && sb.schedules == schedules@,
            final(self)@.entities[e as int].alive == old(self)@.entities[e as int].alive,
            final(self)@.entities[e as int].parent == old(self)@.entities[e as int].parent,
            final(self)@.entities[e as int].created_by == old(self)@.entities[
                e as int
            ].created_by,
            final(self)@.entities[e as int].components == old(self)@.entities[
                e as int
            ].components,
            spec_tags_wf(final(self)@.entities),
    {
        let marker = self.next_marker;
        self.next_marker = self.next_marker + 1;
        let ghost sched_model = schedules@;
        let rec = &mut self.entities[e];
        rec.sandbox = Some(SandboxData { marker, schedules });
        let ghost mid = self@.entities;
        proof {
            assert(mid =~= old(self)@.entities.update(
                e as int,
                EntityModel {
                    sandbox: Some(SandboxModel { marker, schedules: sched_model }),
                    ..old(self)@.entities[e as int]
                },
            ));
            assert forall|k: int|
                0 <= k < mid.len() implies (#[trigger] mid[k].parent matches Some(p) ==> (
            p as int) < k) by {
                assert(k == e || mid[k] == old(self)@.entities[k]);
            }
        }
        self.retag_all();
        proof {
            let s = self@.entities;
            assert forall|i: int, j: int|
                0 <= i < j < s.len() && s[i].sandbox is Some && s[j].sandbox is Some implies (
            #[trigger] s[i].sandbox)->0.marker != (#[trigger] s[j].sandbox)->0.marker by {
                if i != e && j != e {
                    assert(spec_same_shape(s[i], old(self)@.entities[i]));
                    assert(spec_same_shape(s[j], old(self)@.entities[j]));
                }
            }
        }
        marker
    }

    /// Replace the sandbox of an existing domain root: the domain keeps its
    /// member entities but is identified by a fresh marker, and its
    /// schedules are replaced.
    pub fn replace_sandbox(&mut self, e: usize, schedules: ModSchedules) -> (marker: u64)
        requires
            old(self).wf(),
            (e as int) < old(self)@.entities.len(),
            old(self)@.entities[e as int].sandbox is Some,
            old(self)@.next_marker < u64::MAX,
        ensures
            final(self).wf(),
            marker == old(self)@.next_marker,
            final(self)@.next_marker == old(self)@.next_marker + 1,
            final(self)@.entities.len() == old(self)@.entities.len(),
            forall|k: int|
                0 <= k < old(self)@.entities.len() && k != e
                    ==> #[trigger] final(self)@.entities[k] == old(self)@.entities[k],
            final(self)@.entities[e as int].sandbox matches Some(sb) && sb.marker == marker
                && sb.schedules == schedules@,
            final(self)@.entities[e as int].alive == old(self)@.entities[e as int].alive,
            final(self)@.entities[e as int].parent == old(self)@.entities[e as int].parent,
            final(self)@.entities[e as int].created_by == old(self)@.entities[
                e as int
            ].created_by,
            final(self)@.entities[e as int].components == old(self)@.entities[
                e as int
            ].components,
            final(self)@.entities[e as int].tag == old(self)@.entities[e as int].tag,
    {
        let marker = self.next_marker;
        self.next_marker = self.next_marker + 1;
        let ghost old_s = self@.entities;
        let ghost sched_model = schedules@;
        let rec = &mut self.entities[e];
        rec.sandbox = Some(SandboxData { marker, schedules });
        proof {
            let s = self@.entities;
            assert(s =~= old_s.update(
                e as int,
                EntityModel {
                    sandbox: Some(SandboxModel { marker, schedules: sched_model }),
                    ..old_s[e as int]
                },
            ));
            assert forall|i: int| 0 <= i < s.len() implies #[trigger] s[i].tag == spec_domain_of(
                s,
                i,
            ) by {
                lemma_domain_stable(old_s, s, i);
            }
            assert forall|i: int, j: int|
                0 <= i < j < s.len() && s[i].sandbox is Some && s[j].sandbox is Some implies (
            #[trigger] s[i].sandbox)->0.marker != (#[trigger] s[j].sandbox)->0.marker by {
                assert(i == e || s[i] == old_s[i]);
                assert(j == e || s[j] == old_s[j]);
            }
        }
        marker
    }

    /// Dissolve an access domain: the root stays, its entities fall back to
    /// the enclosing domain.
    pub fn remove_sandbox(&mut self, e: usize)
        requires
            old(self).wf(),
            (e as int) < old(self)@.entities.len(),
        ensures
            final(self).wf(),
            final(self)@.next_marker == old(self)@.next_marker,
            final(self)@.entities.len() == old(self)@.entities.len(),
            forall|k: int|
                0 <= k < old(self)@.entities.len() && k != e ==> spec_same_shape(
                    #[trigger] final(self)@.entities[k],
                    old(self)@.entities[k],
                ),
            final(self)@.entities[e as int].sandbox is None,
            final(self)@.entities[e as int].alive == old(self)@.entities[e as int].alive,
            final(self)@.entities[e as int].parent == old(self)@.entities[e as int].parent,
            final(self)@.entities[e as int].created_by == old(self)@.entities[
                e as int
            ].created_by,
            final(self)@.entities[e as int].components == old(self)@.entities[
                e as int
            ].components,
            spec_tags_wf(final(self)@.entities),
    {
        let rec = &mut self.entities[e];
        rec.sandbox = None;
        let ghost mid = self@.entities;
        proof {
            assert(mid =~= old(self)@.entities.update(
                e as int,
                EntityModel { sandbox: None, ..old(self)@.entities[e as int] },
            ));
            assert forall|k: int|
                0 <= k < mid.len() implies (#[trigger] mid[k].parent matches Some(p) ==> (
            p as int) < k) by {
                assert(k == e || mid[k] == old(self)@.entities[k]);
            }
        }
        self.retag_all();
        proof {
            let s = self@.entities;
            assert forall|i: int, j: int|
                0 <= i < j < s.len() && s[i].sandbox is Some && s[j].sandbox is Some implies (
            #[trigger] s[i].sandbox)->0.marker != (#[trigger] s[j].sandbox)->0.marker by {
                if i != e && j != e {
                    assert(spec_same_shape(s[i], old(self)@.entities[i]));
                    assert(spec_same_shape(s[j], old(self)@.entities[j]));
                }
            }
        }
    }

    /// Move an entity under a new parent and retag the world accordingly.
    ///
    /// The new parent must be an earlier-spawned entity: this keeps the
    /// spawn-ordered forest invariant (`spec_parents_wf`), the model's form
    /// of acyclicity, under which the nearest-ancestor domain walk stays
    /// well-founded. A reparent that would place an entity below one of its
    /// own descendants is thereby ruled out by construction.
    pub fn reparent(&mut self, e: usize, new_parent: Option<usize>)
        requires
            old(self).wf(),
            (e as int) < old(self)@.entities.len(),
            new_parent matches Some(p) ==> (p as int) < (e as int),
        ensures
            final(self).wf(),
            final(self)@.next_marker == old(self)@.next_marker,
            final(self)@.entities.len() == old(self)@.entities.len(),
            forall|k: int|
                0 <= k < old(self)@.entities.len() && k != e ==> spec_same_shape(
                    #[trigger] final(self)@.entities[k],
                    old(self)@.entities[k],
                ),
            final(self)@.entities[e as int].parent == new_parent,
            final(self)@.entities[e as int].alive == old(self)@.entities[e as int].alive,
            final(self)@.entities[e as int].sandbox == old(self)@.entities[e as int].sandbox,
            final(self)@.entities[e as int].created_by == old(self)@.entities[
                e as int
            ].created_by,
            final(self)@.entities[e as int].components == old(self)@.entities[
                e as int
            ].components,
            spec_tags_wf(final(self)@.entities),
    {
        let rec = &mut self.entities[e];
        rec.parent = new_parent;
        let ghost mid = self@.entities;
        proof {
            assert(mid =~= old(self)@.entities.update(
                e as int,
                EntityModel { parent: new_parent, ..old(self)@.entities[e as int] },
            ));
            assert forall|k: int|
                0 <= k < mid.len() implies (#[trigger] mid[k].parent matches Some(p) ==> (
            p as int) < k) by {
                assert(k == e || mid[k] == old(self)@.entities[k]);
            }
        }
        self.retag_all();
        proof {
            let s = self@.entities;
            assert forall|i: int, j: int|
                0 <= i < j < s.len() && s[i].sandbox is Some && s[j].sandbox is Some implies (
            #[trigger] s[i].sandbox)->0.marker != (#[trigger] s[j].sandbox)->0.marker by {
                if i != e && j != e {
                    assert(spec_same_shape(s[i], old(self)@.entities[i]));
                    assert(spec_same_shape(s[j], old(self)@.entities[j]));
                }
                if i == e || j == e {
                    assert(spec_same_shape2(s[e as int], old(self)@.entities[e as int]));
                }
            }
        }
    }
}

/// How two entity records may differ when only parent or tag moved:
/// everything but parent and tag agrees.
pub open spec fn spec_same_shape2(a: EntityModel, b: EntityModel) -> bool {
    a.alive == b.alive && a.sandbox == b.sandbox && a.created_by == b.created_by && a.components
        == b.components
}

/// True when some component with this id is attached.
pub open spec fn spec_has_comp(c: Seq<(u64, Seq<char>)>, id: u64) -> bool {
    exists|k: int| 0 <= k < c.len() && (#[trigger] c[k]).0 == id
}

/// The position of the component with this id (unique under `spec_comps_wf`).
pub open spec fn spec_comp_at(c: Seq<(u64, Seq<char>)>, id: u64) -> int {
    choose|k: int| 0 <= k < c.len() && (#[trigger] c[k]).0 == id
}

/// The stored value of the component with this id, if any.
pub open spec fn spec_comp_lookup(c: Seq<(u64, Seq<char>)>, id: u64) -> Option<Seq<char>> {
    if spec_has_comp(c, id) {
        Some(c[spec_comp_at(c, id)].1)
    } else {
        None
    }
}

/// The component table after storing `v` under `id`: the stored value is
/// overwritten in place when the id is present, and appended otherwise.
pub open spec fn spec_comp_insert(
    c: Seq<(u64, Seq<char>)>,
    id: u64,
    v: Seq<char>,
) -> Seq<(u64, Seq<char>)> {
    if spec_has_comp(c, id) {
        c.update(spec_comp_at(c, id), (id, v))
    } else {
        c.push((id, v))
    }
}

/// Unique component ids in one table.
pub open spec fn spec_comp_keys_unique(c: Seq<(u64, Seq<char>)>) -> bool {
    forall|a: int, b: int|
        0 <= a < b < c.len() ==> (#[trigger] c[a]).0 != (#[trigger] c[b]).0
}

/// Round trip through the component store: writing a value under a
/// component id and reading that id back yields exactly the written value,
/// whatever was stored before; every other id keeps its stored value.
pub proof fn lemma_component_round_trip(c: Seq<(u64, Seq<char>)>, id: u64, v: Seq<char>)
    requires
        spec_comp_keys_unique(c),
    ensures
        spec_comp_lookup(spec_comp_insert(c, id, v), id) == Some(v),
        forall|id2: u64|
            id2 != id ==> #[trigger] spec_comp_lookup(spec_comp_insert(c, id, v), id2)
                == spec_comp_lookup(c, id2),
        spec_comp_keys_unique(spec_comp_insert(c, id, v)),
{
    let c2 = spec_comp_insert(c, id, v);
    if spec_has_comp(c, id) {
        let k = spec_comp_at(c, id);
        assert(0 <= k < c.len() && c[k].0 == id);
        assert(c2 == c.update(k, (id, v)));
        assert(c2[k].0 == id);
        assert(spec_has_comp(c2, id));
        let k2 = spec_comp_at(c2, id);
        assert(0 <= k2 < c2.len() && c2[k2].0 == id);
        if k2 != k {
            assert(c[k2].0 == id);
        }
        assert(k2 == k);
        assert forall|id2: u64| id2 != id implies #[trigger] spec_comp_lookup(c2, id2)
            == spec_comp_lookup(c, id2) by {
            assert forall|m: int| 0 <= m < c.len() && m != k implies c2[m] == c[m] by {}
            if spec_has_comp(c2, id2) {
                let a = spec_comp_at(c2, id2);
                assert(0 <= a < c2.len() && c2[a].0 == id2);
                assert(a != k);
                assert(c[a].0 == id2);
                assert(spec_has_comp(c, id2));
                let b = spec_comp_at(c, id2);
                assert(0 <= b < c.len() && c[b].0 == id2);
                assert(b != k);
                assert(a == b);
            } else {
                if spec_has_comp(c, id2) {
                    let b = spec_comp_at(c, id2);
                    assert(0 <= b < c.len() && c[b].0 == id2);
                    assert(b != k);
                    assert(c2[b].0 == id2);
                    assert(spec_has_comp(c2, id2));
                }
            }
        }
    } else {
        assert(c2 == c.push((id, v)));
        assert(c2[c.len() as int].0 == id);
        assert(spec_has_comp(c2, id));
        let k2 = spec_comp_at(c2, id);
        assert(0 <= k2 < c2.len() && c2[k2].0 == id);
        if k2 < c.len() {
            assert(c[k2].0 == id);
        }
        assert(k2 == c.len());
        assert forall|id2: u64| id2 != id implies #[trigger] spec_comp_lookup(c2, id2)
            == spec_comp_lookup(c, id2) by {
            if spec_has_comp(c2, id2) {
                let a = spec_comp_at(c2, id2);
                assert(0 <= a < c2.len() && c2[a].0 == id2);
                assert(a < c.len());
                assert(spec_has_comp(c, id2));
                let b = spec_comp_at(c, id2);
                assert(c2[b].0 == id2);
                assert(a == b);
            } else {
                if spec_has_comp(c, id2) {
                    let b = spec_comp_at(c, id2);
                    assert(c2[b].0 == id2);
                    assert(spec_has_comp(c2, id2));
                }
            }
        }
        assert forall|a: int, b: int| 0 <= a < b < c2.len() implies (#[trigger] c2[a]).0 != (
        #[trigger] c2[b]).0 by {
            if b == c.len() {
                if c2[a].0 == id {
                    assert(c[a].0 == id);
                    assert(spec_has_comp(c, id));
                }
            }
        }
    }
}

/// A domain root always precedes the entity it tags.
proof fn lemma_domain_bound(s: Seq<EntityModel>, i: int)
    ensures
        spec_domain_of(s, i) matches Some(p) ==> 0 <= (p as int) < i && (p as int) < s.len()
            && s[p as int].sandbox is Some,
    decreases i,
{
    if 0 <= i < s.len() {
        match s[i].parent {
            Some(p) => {
                if (p as int) < i && s[p as int].sandbox is None {
                    lemma_domain_bound(s, p as int);
                }
            },
            None => {},
        }
    }
}

/// An entity carries a sandbox's marker exactly when it is tagged into a
/// domain whose root currently carries that marker.
pub open spec fn spec_has_marker(s: Seq<EntityModel>, e: int, marker: u64) -> bool {
    &&& s[e].tag matches Some(root)
    &&& (s[e].tag->0 as int) < s.len()
    &&& s[s[e].tag->0 as int].sandbox matches Some(sb)
    &&& s[s[e].tag->0 as int].sandbox->0.marker == marker
}

impl World {
    /// True while the entity has not been despawned.
    pub fn is_alive(&self, e: usize) -> (r: bool)
        requires
            (e as int) < self@.entities.len(),
        ensures
            r == self@.entities[e as int].alive,
    {
        self.entities[e].alive
    }

    /// The domain the entity currently belongs to: the index of its sandbox
    /// root, or nothing for the world domain.
    pub fn tag_of(&self, e: usize) -> (r: Option<usize>)
        requires
            (e as int) < self@.entities.len(),
        ensures
            r == self@.entities[e as int].tag,
    {
        self.entities[e].tag
    }

    /// The entity's parent link.
    pub fn parent_of(&self, e: usize) -> (r: Option<usize>)
        requires
            (e as int) < self@.entities.len(),
        ensures
            r == self@.entities[e as int].parent,
    {
        self.entities[e].parent
    }

    /// The mod whose lineage the entity belongs to, if any.
    pub fn created_by_of(&self, e: usize) -> (r: Option<usize>)
        requires
            (e as int) < self@.entities.len(),
        ensures
            r == self@.entities[e as int].created_by,
    {
        self.entities[e].created_by
    }

    /// The marker of the sandbox rooted at this entity, if it is a root.
    pub fn marker_of(&self, e: usize) -> (r: Option<u64>)
        requires
            (e as int) < self@.entities.len(),
        ensures
            match r {
                Some(m) => self@.entities[e as int].sandbox matches Some(sb) && sb.marker == m,
                None => self@.entities[e as int].sandbox is None,
            },
    {
        match &self.entities[e].sandbox {
            Some(sb) => Some(sb.marker),
            None => None,
        }
    }

    /// A copy of the schedules of the sandbox rooted at this entity.
    pub fn schedules_of(&self, e: usize) -> (r: Option<ModSchedules>)
        requires
            (e as int) < self@.entities.len(),
        ensures
            match r {
                Some(sch) => self@.entities[e as int].sandbox matches Some(sb) && sch@
                    == sb.schedules,
                None => self@.entities[e as int].sandbox is None,
            },
    {
        match &self.entities[e].sandbox {
            Some(sb) => Some(sb.schedules.duplicate()),
            None => None,
        }
    }

    /// True when the entity currently carries the given sandbox marker.
    pub fn has_marker(&self, e: usize, marker: u64) -> (r: bool)
        requires
            self.wf(),
            (e as int) < self@.entities.len(),
        ensures
            r == spec_has_marker(self@.entities, e as int, marker),
    {
        let tag = self.entities[e].tag;
        proof {
            assert(tag == self@.entities[e as int].tag);
            lemma_domain_bound(self@.entities, e as int);
        }
        match tag {
            Some(root) => match &self.entities[root].sandbox {
                Some(sb) => sb.marker == marker,
                None => false,
            },
            None => false,
        }
    }

    /// All entities currently tagged into the domain rooted at `root`, in
    /// spawn order.
    pub fn sandboxed_entities(&self, root: usize) -> (r: Vec<usize>)
        ensures
            forall|k: int|
                0 <= k < r@.len() ==> (r@[k] as int) < self@.entities.len()
                    && (#[trigger] self@.entities[r@[k] as int]).tag == Some(root),
            forall|i: int|
                0 <= i < self@.entities.len() && (#[trigger] self@.entities[i]).tag == Some(root)
                    ==> r@.contains(i as usize),
            forall|a: int, b: int| 0 <= a < b < r@.len() ==> r@[a] < r@[b],
    {
        let n = self.entities.len();
        let mut out: Vec<usize> = Vec::new();
        let mut i: usize = 0;
        while i < n
            invariant
                0 <= i <= n,
                n == self@.entities.len(),
                forall|k: int|
                    0 <= k < out@.len() ==> (out@[k] as int) < i as int
                        && (#[trigger] self@.entities[out@[k] as int]).tag == Some(root),
                forall|m: int|
                    0 <= m < i && (#[trigger] self@.entities[m]).tag == Some(root)
                        ==> out@.contains(m as usize),
                forall|a: int, b: int| 0 <= a < b < out@.len() ==> out@[a] < out@[b],
            decreases n - i,
        {
            let is_hit = match self.entities[i].tag {
                Some(t) => t == root,
                None => false,
            };
            proof {
                assert(self@.entities[i as int] == self.entities@[i as int]@);
            }
            if is_hit {
                let ghost prev = out@;
                out.push(i);
                proof {
                    assert(out@ =~= prev.push(i));
                    assert forall|a: int, b: int| 0 <= a < b < out@.len() implies out@[a]
                        < out@[b] by {
                        if b < prev.len() {
                            assert(prev[a] < prev[b]);
                        } else {
                            assert(out@[b] == i);
                            assert((#[trigger] self@.entities[prev[a] as int]).tag == Some(root)
                                && (prev[a] as int) < i as int);
                        }
                    }
                    assert forall|m: int|
                        0 <= m < i + 1 && (#[trigger] self@.entities[m]).tag == Some(root)
                            implies out@.contains(m as usize) by {
                        if m < i {
                            assert(prev.contains(m as usize));
                            let w = choose|w: int| 0 <= w < prev.len() && prev[w] == m as usize;
                            assert(out@[w] == m as usize);
                        } else {
                            assert(out@[prev.len() as int] == i);
                        }
                    }
                }
            } else {
                proof {
                    assert forall|m: int|
                        0 <= m < i + 1 && (#[trigger] self@.entities[m]).tag == Some(root)
                            implies out@.contains(m as usize) by {
                        assert(m != i);
                    }
                }
            }
            i = i + 1;
        }
        out
    }

    /// Put the entity into a mod's lineage: it will be despawned together
    /// with that mod.
    pub fn set_created_by(&mut self, e: usize, mod_id: usize)
        requires
            old(self).wf(),
            (e as int) < old(self)@.entities.len(),
        ensures
            final(self).wf(),
            final(self)@.next_marker == old(self)@.next_marker,
            final(self)@.entities =~= old(self)@.entities.update(
                e as int,
                EntityModel {
                    created_by: Some(mod_id),
                    ..old(self)@.entities[e as int]
                },
            ),
    {
        let rec = &mut self.entities[e];
        rec.created_by = Some(mod_id);
        proof {
            let s = self@.entities;
            let t = old(self)@.entities.update(
                e as int,
                EntityModel { created_by: Some(mod_id), ..old(self)@.entities[e as int] },
            );
            assert(s =~= t);
            assert forall|i: int| 0 <= i < s.len() implies #[trigger] s[i].tag == spec_domain_of(
                s,
                i,
            ) by {
                lemma_domain_stable(old(self)@.entities, s, i);
            }
        }
    }

    /// Despawn one entity.
    pub fn despawn(&mut self, e: usize)
        requires
            old(self).wf(),
            (e as int) < old(self)@.entities.len(),
        ensures
            final(self).wf(),
            final(self)@.next_marker == old(self)@.next_marker,
            final(self)@.entities =~= old(self)@.entities.update(
                e as int,
                EntityModel { alive: false, ..old(self)@.entities[e as int] },
            ),
    {
        let rec = &mut self.entities[e];
        rec.alive = false;
        proof {
            let s = self@.entities;
            let t = old(self)@.entities.update(
                e as int,
                EntityModel { alive: false, ..old(self)@.entities[e as int] },
            );
            assert(s =~= t);
            assert forall|i: int| 0 <= i < s.len() implies #[trigger] s[i].tag == spec_domain_of(
                s,
                i,
            ) by {
                lemma_domain_stable(old(self)@.entities, s, i);
            }
        }
    }

    /// Despawn exactly the entities in a mod's lineage: every entity the mod
    /// created is despawned, and no other entity is touched.
    pub fn despawn_created_by(&mut self, mod_id: usize)
        requires
            old(self).wf(),
        ensures
            final(self).wf(),
            final(self)@.next_marker == old(self)@.next_marker,
            final(self)@.entities.len() == old(self)@.entities.len(),
            forall|i: int|
                0 <= i < old(self)@.entities.len() ==> #[trigger] final(self)@.entities[i] == (
                if old(self)@.entities[i].created_by == Some(mod_id) {
                    EntityModel { alive: false, ..old(self)@.entities[i] }
                } else {
                    old(self)@.entities[i]
                }),
    {
        let n = self.entities.len();
        let mut i: usize = 0;
        while i < n
            invariant
                0 <= i <= n,
                n == self@.entities.len(),
                self@.next_marker == old(self)@.next_marker,
                self@.entities.len() == old(self)@.entities.len(),
                forall|k: int|
                    0 <= k < n ==> #[trigger] self@.entities[k] == (
                    if k < i && old(self)@.entities[k].created_by == Some(mod_id) {
                        EntityModel { alive: false, ..old(self)@.entities[k] }
                    } else {
                        old(self)@.entities[k]
                    }),
            decreases n - i,
        {
            let ghost pre = self@.entities;
            let hit = match self.entities[i].created_by {
                Some(m) => m == mod_id,
                None => false,
            };
            if hit {
                let rec = &mut self.entities[i];
                rec.alive = false;
                proof {
                    assert(self@.entities =~= pre.update(
                        i as int,
                        EntityModel { alive: false, ..pre[i as int] },
                    ));
                }
            }
            i = i + 1;
        }
        proof {
            let s = self@.entities;
            assert forall|i2: int| 0 <= i2 < s.len() implies #[trigger] s[i2].tag
                == spec_domain_of(s, i2) by {
                lemma_domain_stable(old(self)@.entities, s, i2);
            }
        }
    }

}

/// The component table after removing `id`: unchanged when absent.
pub open spec fn spec_comp_remove(c: Seq<(u64, Seq<char>)>, id: u64) -> Seq<(u64, Seq<char>)> {
    if spec_has_comp(c, id) {
        c.remove(spec_comp_at(c, id))
    } else {
        c
    }
}

fn comp_index(c: &Vec<(u64, String)>, id: u64) -> (r: Option<usize>)
    ensures
        match r {
            Some(i) => (i as int) < c@.len() && c@[i as int].0 == id && forall|k: int|
                0 <= k < i ==> (#[trigger] c@[k]).0 != id,
            None => forall|k: int| 0 <= k < c@.len() ==> (#[trigger] c@[k]).0 != id,
        },
{
    let mut i: usize = 0;
    while i < c.len()
        invariant
            0 <= i <= c@.len(),
            forall|k: int| 0 <= k < i ==> (#[trigger] c@[k]).0 != id,
        decreases c@.len() - i,
    {
        if c[i].0 == id {
            return Some(i);
        }
        i = i + 1;
    }
    None
}

impl World {
    /// Store a serialized component value on an entity: overwritten in place
    /// when the component is already attached, attached otherwise.
    pub fn insert_component(&mut self, e: usize, comp_id: u64, value: String)
        requires
            old(self).wf(),
            (e as int) < old(self)@.entities.len(),
        ensures
            final(self).wf(),
            final(self)@.next_marker == old(self)@.next_marker,
            final(self)@.entities =~= old(self)@.entities.update(
                e as int,
                EntityModel {
                    components: spec_comp_insert(
                        old(self)@.entities[e as int].components,
                        comp_id,
                        value@,
                    ),
                    ..old(self)@.entities[e as int]
                },
            ),
    {
        let ghost old_s = self@.entities;
        let ghost old_c = old_s[e as int].components;
        let ghost val = value@;
        let pos = comp_index(&self.entities[e].components, comp_id);
        proof {
            assert(old_s[e as int] == self.entities@[e as int]@);
            assert(old_c =~= spec_comps_view(self.entities@[e as int].components@));
        }
        match pos {
            Some(i) => {
                proof {
                    assert(old_c[i as int].0 == comp_id);
                    assert(spec_has_comp(old_c, comp_id));
                    let at = spec_comp_at(old_c, comp_id);
                    assert(0 <= at < old_c.len() && old_c[at].0 == comp_id);
                    assert(at == i as int);
                }
                let rec = &mut self.entities[e];
                let slot = &mut rec.components[i];
                *slot = (comp_id, value);
                proof {
                    let s = self@.entities;
                    assert(s[e as int].components =~= old_c.update(i as int, (comp_id, val)));
                    assert(s =~= old_s.update(
                        e as int,
                        EntityModel {
                            components: spec_comp_insert(old_c, comp_id, val),
                            ..old_s[e as int]
                        },
                    ));
                }
            },
            None => {
                proof {
                    assert(!spec_has_comp(old_c, comp_id));
                }
                let rec = &mut self.entities[e];
                rec.components.push((comp_id, value));
                proof {
                    let s = self@.entities;
                    assert(s[e as int].components =~= old_c.push((comp_id, val)));
                    assert(s =~= old_s.update(
                        e as int,
                        EntityModel {
                            components: spec_comp_insert(old_c, comp_id, val),
                            ..old_s[e as int]
                        },
                    ));
                }
            },
        }
        proof {
            let s = self@.entities;
            assert forall|k: int| 0 <= k < s.len() implies #[trigger] s[k].tag == spec_domain_of(
                s,
                k,
            ) by {
                lemma_domain_stable(old_s, s, k);
            }
            assert forall|i2: int, j2: int|
                0 <= i2 < j2 < s.len() && s[i2].sandbox is Some && s[j2].sandbox is Some implies (
            #[trigger] s[i2].sandbox)->0.marker != (#[trigger] s[j2].sandbox)->0.marker by {
                assert(s[i2].sandbox == old_s[i2].sandbox);
                assert(s[j2].sandbox == old_s[j2].sandbox);
            }
            lemma_component_round_trip(old_c, comp_id, val);
            assert forall|i2: int, a: int, b: int|
                0 <= i2 < s.len() && 0 <= a < b < s[i2].components.len() implies (
            #[trigger] s[i2].components[a]).0 != (#[trigger] s[i2].components[b]).0 by {
                if i2 != e {
                    assert(s[i2].components == old_s[i2].components);
                }
            }
        }
    }

    /// The serialized value stored under a component id on an entity.
    pub fn get_component<'a>(&'a self, e: usize, comp_id: u64) -> (r: Option<&'a String>)
        requires
            self.wf(),
            (e as int) < self@.entities.len(),
        ensures
            match r {
                Some(v) => spec_comp_lookup(self@.entities[e as int].components, comp_id) == Some(
                    v@,
                ),
                None => spec_comp_lookup(self@.entities[e as int].components, comp_id) is None,
            },
    {
        let ghost c = self@.entities[e as int].components;
        proof {
            assert(self@.entities[e as int] == self.entities@[e as int]@);
            assert(c =~= spec_comps_view(self.entities@[e as int].components@));
        }
        let pos = comp_index(&self.entities[e].components, comp_id);
        match pos {
            Some(i) => {
                proof {
                    assert(c[i as int].0 == comp_id);
                    assert(spec_has_comp(c, comp_id));
                    let at = spec_comp_at(c, comp_id);
                    assert(0 <= at < c.len() && c[at].0 == comp_id);
                    assert(at == i as int);
                }
                let v = &self.entities[e].components[i].1;
                proof {
                    assert(v@ == c[i as int].1);
                }
                Some(v)
            },
            None => {
                proof {
                    assert(!spec_has_comp(c, comp_id));
                }
                None
            },
        }
    }

    /// Detach the component stored under an id, if it is attached.
    pub fn remove_component(&mut self, e: usize, comp_id: u64)
        requires
            old(self).wf(),
            (e as int) < old(self)@.entities.len(),
        ensures
            final(self).wf(),
            final(self)@.next_marker == old(self)@.next_marker,
            final(self)@.entities =~= old(self)@.entities.update(
                e as int,
                EntityModel {
                    components: spec_comp_remove(
                        old(self)@.entities[e as int].components,
                        comp_id,
                    ),
                    ..old(self)@.entities[e as int]
                },
            ),
    {
        let ghost old_s = self@.entities;
        let ghost old_c = old_s[e as int].components;
        let pos = comp_index(&self.entities[e].components, comp_id);
        proof {
            assert(old_s[e as int] == self.entities@[e as int]@);
            assert(old_c =~= spec_comps_view(self.entities@[e as int].components@));
        }
        match pos {
            Some(i) => {
                proof {
                    assert(old_c[i as int].0 == comp_id);
                    assert(spec_has_comp(old_c, comp_id));
                    let at = spec_comp_at(old_c, comp_id);
                    assert(0 <= at < old_c.len() && old_c[at].0 == comp_id);
                    assert(at == i as int);
                }
                let rec = &mut self.entities[e];
                let _ = rec.components.remove(i);
                proof {
                    let s = self@.entities;
                    assert(s[e as int].components =~= old_c.remove(i as int));
                    assert(s =~= old_s.update(
                        e as int,
                        EntityModel {
                            components: spec_comp_remove(old_c, comp_id),
                            ..old_s[e as int]
                        },
                    ));
                }
            },
            None => {
                proof {
                    assert(!spec_has_comp(old_c, comp_id));
                    assert(self@.entities =~= old_s.update(
                        e as int,
                        EntityModel {
                            components: spec_comp_remove(old_c, comp_id),
                            ..old_s[e as int]
                        },
                    ));
                }
            },
        }
        proof {
            let s = self@.entities;
            assert forall|k: int| 0 <= k < s.len() implies #[trigger] s[k].tag == spec_domain_of(
                s,
                k,
            ) by {
                lemma_domain_stable(old_s, s, k);
            }
            assert forall|i2: int, j2: int|
                0 <= i2 < j2 < s.len() && s[i2].sandbox is Some && s[j2].sandbox is Some implies (
            #[trigger] s[i2].sandbox)->0.marker != (#[trigger] s[j2].sandbox)->0.marker by {
                assert(s[i2].sandbox == old_s[i2].sandbox);
                assert(s[j2].sandbox == old_s[j2].sandbox);
            }
            assert forall|i2: int, a: int, b: int|
                0 <= i2 < s.len() && 0 <= a < b < s[i2].components.len() implies (
            #[trigger] s[i2].components[a]).0 != (#[trigger] s[i2].components[b]).0 by {
                if i2 != e {
                    assert(s[i2].components == old_s[i2].components);
                } else {
                    if spec_has_comp(old_c, comp_id) {
                        let at = spec_comp_at(old_c, comp_id);
                        let c2 = old_c.remove(at);
                        if a < at {
                            assert(c2[a] == old_c[a]);
                        } else {
                            assert(c2[a] == old_c[a + 1]);
                        }
                        if b < at {
                            assert(c2[b] == old_c[b]);
                        } else {
                            assert(c2[b] == old_c[b + 1]);
                        }
                    }
                }
            }
        }
    }
}

/// True when the domain of `x` is computed through entity `e`: the parent
/// chain from `x` reaches `e` without first crossing a sandbox root. These
/// are exactly the entities that a reparenting of `e` retags: `e` itself and
/// its plain descendants, stopping below nested domain roots.
pub open spec fn spec_affected(s: Seq<EntityModel>, x: int, e: int) -> bool
    decreases x,
{
    if x == e {
        true
    } else if 0 <= x < s.len() {
        match s[x].parent {
            Some(p) => (p as int) < x && s[p as int].sandbox is None && spec_affected(
                s,
                p as int,
                e,
            ),
            None => false,
        }
    } else {
        false
    }
}

/// Reparenting, first half: every affected entity belongs to the domain the
/// reparented entity itself lands in.
pub proof fn lemma_affected_follow_root(s: Seq<EntityModel>, x: int, e: int)
    requires
        spec_affected(s, x, e),
    ensures
        spec_domain_of(s, x) == spec_domain_of(s, e),
    decreases x,
{
    if x != e {
        match s[x].parent {
            Some(p) => {
                lemma_affected_follow_root(s, p as int, e);
            },
            None => {},
        }
    }
}

/// Reparenting, second half: an entity whose parent chain does not reach the
/// reparented entity, or crosses a sandbox root first, keeps its domain.
pub proof fn lemma_unaffected_keep_domain(
    s1: Seq<EntityModel>,
    s2: Seq<EntityModel>,
    e: int,
    x: int,
)
    requires
        s1.len() == s2.len(),
        0 <= e < s1.len(),
        forall|k: int| 0 <= k < s1.len() && k != e ==> #[trigger] s1[k] == s2[k],
        s2[e].sandbox == s1[e].sandbox,
        !spec_affected(s1, x, e),
    ensures
        spec_domain_of(s1, x) == spec_domain_of(s2, x),
    decreases x,
{
    if 0 <= x < s1.len() {
        assert(x != e);
        assert(s1[x] == s2[x]);
        match s1[x].parent {
            Some(p) => {
                if (p as int) < x {
                    if (p as int) == e {
                        if s1[e].sandbox is None {
                            assert(spec_affected(s1, e, e));
                            assert(spec_affected(s1, x, e));
                        }
                    } else {
                        assert(s1[p as int] == s2[p as int]);
                        if s1[p as int].sandbox is None {
                            assert(!spec_affected(s1, p as int, e));
                            lemma_unaffected_keep_domain(s1, s2, e, p as int);
                        }
                    }
                }
            },
            None => {},
        }
    }
}

} // verus!
