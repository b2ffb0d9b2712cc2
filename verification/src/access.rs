//! Access descriptors for mod systems.
//!
//! A mod runs either in the world domain or in a sandbox. Each case yields a
//! filtered-access descriptor over marker component ids: a sandbox grants
//! access to exactly the entities tagged into it, the world domain to
//! exactly the untagged entities. Descriptors of different domains match
//! disjoint entity sets, which is what allows their systems to run
//! concurrently.

use vstd::prelude::*;

use crate::schedule::{ModSchedules, ModScheduleModel};
use crate::world::{
    EntityModel, World, SANDBOXED_MARKER, spec_markers_wf,
};

verus! {

broadcast use vstd::set::group_set_axioms;

/// A filtered-access descriptor: required marker ids, excluded marker ids,
/// or nothing at all.
pub struct FilteredAccess {
    with_ids: Vec<u64>,
    without_ids: Vec<u64>,
    nothing: bool,
}

/// Mathematical model of a `FilteredAccess`.
#[verifier::ext_equal]
pub ghost struct AccessModel {
    pub with_ids: Set<u64>,
    pub without_ids: Set<u64>,
    pub nothing: bool,
}

impl View for FilteredAccess {
    type V = AccessModel;

    closed spec fn view(&self) -> AccessModel {
        AccessModel {
            with_ids: self.with_ids@.to_set(),
            without_ids: self.without_ids@.to_set(),
            nothing: self.nothing,
        }
    }
}

/// True when an entity carrying exactly `markers` is matched.
pub open spec fn spec_access_matches(a: AccessModel, markers: Set<u64>) -> bool {
    &&& !a.nothing
    &&& forall|m: u64| #[trigger] a.with_ids.contains(m) ==> markers.contains(m)
    &&& forall|m: u64| #[trigger] a.without_ids.contains(m) ==> !markers.contains(m)
}

/// The marker component ids an entity currently carries: its domain's
/// marker and the shared tag marker, or none for an untagged entity.
pub open spec fn spec_entity_markers(s: Seq<EntityModel>, e: int) -> Set<u64> {
    if s[e].tag matches Some(root) && (s[e].tag->0 as int) < s.len() && s[s[e].tag->0 as int].sandbox
        is Some {
        set![SANDBOXED_MARKER, s[s[e].tag->0 as int].sandbox->0.marker]
    } else {
        Set::empty()
    }
}

/// True when `m` is the marker of a sandbox other than the one rooted at
/// `root`.
pub open spec fn spec_other_marker(s: Seq<EntityModel>, root: int, m: u64) -> bool {
    exists|j: int|
        0 <= j < s.len() && j != root && (#[trigger] s[j]).sandbox is Some
            && s[j].sandbox->0.marker == m
}

/// The descriptor of the domain rooted at `root`: requires the domain's own
/// marker and the shared tag marker, excludes every other domain's marker.
pub open spec fn spec_sandbox_access(s: Seq<EntityModel>, root: int) -> AccessModel {
    AccessModel {
        with_ids: set![s[root].sandbox->0.marker, SANDBOXED_MARKER],
        without_ids: Set::new(|m: u64| spec_other_marker(s, root, m)),
        nothing: false,
    }
}

/// The descriptor of the world domain: excludes every tagged entity.
pub open spec fn spec_world_access() -> AccessModel {
    AccessModel {
        with_ids: Set::empty(),
        without_ids: set![SANDBOXED_MARKER],
        nothing: false,
    }
}

impl FilteredAccess {
    /// A descriptor that matches no entity at all.
    pub fn matches_nothing() -> (r: FilteredAccess)
        ensures
            r@.nothing,
    {
        FilteredAccess { with_ids: Vec::new(), without_ids: Vec::new(), nothing: true }
    }

    /// The descriptor of the world domain.
    pub fn non_sandboxed() -> (r: FilteredAccess)
        ensures
            r@ == spec_world_access(),
    {
        let mut without_ids: Vec<u64> = Vec::new();
        without_ids.push(SANDBOXED_MARKER);
        let r = FilteredAccess { with_ids: Vec::new(), without_ids, nothing: false };
        proof {
            assert(r@.with_ids =~= Set::<u64>::empty());
            assert(r.without_ids@[0] == SANDBOXED_MARKER);
            assert(r.without_ids@.contains(SANDBOXED_MARKER));
            assert forall|m: u64| #[trigger] r.without_ids@.contains(m) implies m
                == SANDBOXED_MARKER by {
                let i = choose|i: int|
                    0 <= i < r.without_ids@.len() && r.without_ids@[i] == m;
            }
            assert(r@.without_ids =~= set![SANDBOXED_MARKER]);
            assert(r@ =~= spec_world_access());
        }
        r
    }

    /// The descriptor of the sandbox rooted at `root`, computed against the
    /// world's current set of domains.
    pub fn sandbox_access(world: &World, root: usize) -> (r: FilteredAccess)
        requires
            world.wf(),
            (root as int) < world@.entities.len(),
            world@.entities[root as int].sandbox is Some,
        ensures
            r@ == spec_sandbox_access(world@.entities, root as int),
    {
        let ghost s = world@.entities;
        let mut with_ids: Vec<u64> = Vec::new();
        let marker = match world.marker_of(root) {
            Some(m) => m,
            None => 0,  // ruled out by the sandbox requirement
        };
        with_ids.push(marker);
        with_ids.push(SANDBOXED_MARKER);
        let n = world.len();
        let mut without_ids: Vec<u64> = Vec::new();
        let mut j: usize = 0;
        while j < n
            invariant
                0 <= j <= n,
                n == s.len(),
                world.wf(),
                world@.entities == s,
                forall|k: int|
                    0 <= k < without_ids@.len() ==> spec_other_marker(
                        s,
                        root as int,
                        #[trigger] without_ids@[k],
                    ),
                forall|w: int|
                    0 <= w < j && w != root && (#[trigger] s[w]).sandbox is Some
                        ==> without_ids@.contains(s[w].sandbox->0.marker),
            decreases n - j,
        {
            if j != root {
                match world.marker_of(j) {
                    Some(m) => {
                        let ghost prev = without_ids@;
                        without_ids.push(m);
                        proof {
                            assert(s[j as int].sandbox is Some && s[j as int].sandbox->0.marker
                                == m);
                            assert(spec_other_marker(s, root as int, m));
                            assert forall|k: int|
                                0 <= k < without_ids@.len() implies spec_other_marker(
                                s,
                                root as int,
                                #[trigger] without_ids@[k],
                            ) by {
                                if k < prev.len() {
                                    assert(without_ids@[k] == prev[k]);
                                    assert(spec_other_marker(s, root as int, prev[k]));
                                } else {
                                    assert(without_ids@[k] == m);
                                }
                            }
                            assert forall|w: int|
                                0 <= w < j + 1 && w != root && (#[trigger] s[w]).sandbox is Some
                                    implies without_ids@.contains(s[w].sandbox->0.marker) by {
                                if w < j {
                                    let k = choose|k: int|
                                        0 <= k < prev.len() && prev[k] == s[w].sandbox->0.marker;
                                    assert(without_ids@[k] == s[w].sandbox->0.marker);
                                } else {
                                    assert(s[j as int].sandbox->0.marker == m);
                                    assert(without_ids@[prev.len() as int] == m);
                                }
                            }
                        }
                    },
                    None => {
                        proof {
                            assert forall|w: int|
                                0 <= w < j + 1 && w != root && (#[trigger] s[w]).sandbox is Some
                                    implies without_ids@.contains(s[w].sandbox->0.marker) by {
                                assert(w != j);
                            }
                        }
                    },
                }
            }
            j = j + 1;
        }
        let r = FilteredAccess { with_ids, without_ids, nothing: false };
        proof {
            assert(r.with_ids@[0] == s[root as int].sandbox->0.marker);
            assert(r.with_ids@[1] == SANDBOXED_MARKER);
            assert(r.with_ids@.contains(s[root as int].sandbox->0.marker));
            assert(r.with_ids@.contains(SANDBOXED_MARKER));
            assert forall|m: u64| #[trigger] r.with_ids@.contains(m) implies m == s[
                root as int
            ].sandbox->0.marker || m == SANDBOXED_MARKER by {
                let i = choose|i: int| 0 <= i < r.with_ids@.len() && r.with_ids@[i] == m;
            }
            assert(r@.with_ids =~= set![s[root as int].sandbox->0.marker, SANDBOXED_MARKER]);
            let target = spec_sandbox_access(s, root as int).without_ids;
            assert forall|m: u64| r@.without_ids.contains(m) implies target.contains(m) by {
                let k = choose|k: int|
                    0 <= k < without_ids@.len() && without_ids@[k] == m;
                assert(spec_other_marker(s, root as int, without_ids@[k]));
            }
            assert forall|m: u64| target.contains(m) implies r@.without_ids.contains(m) by {
                assert(spec_other_marker(s, root as int, m));
                let w = choose|w: int|
                    0 <= w < s.len() && w != root as int && (#[trigger] s[w]).sandbox is Some
                        && s[w].sandbox->0.marker == m;
                assert(w != root);
                assert(without_ids@.contains(s[w].sandbox->0.marker));
            }
            assert(r@.without_ids =~= target);
            assert(r@ =~= spec_sandbox_access(s, root as int));
        }
        r
    }

    /// True when the descriptor matches the markers that entity `e`
    /// currently carries.
    pub fn matches_entity(&self, world: &World, e: usize) -> (r: bool)
        requires
            world.wf(),
            (e as int) < world@.entities.len(),
        ensures
            r == spec_access_matches(self@, spec_entity_markers(world@.entities, e as int)),
    {
        if self.nothing {
            return false;
        }
        let ghost markers = spec_entity_markers(world@.entities, e as int);
        let tag = world.tag_of(e);
        let n = world.len();
        let entity_marker: Option<u64> = match tag {
            Some(root) => {
                if root < n {
                    world.marker_of(root)
                } else {
                    None
                }
            },
            None => None,
        };
        let mut i: usize = 0;
        while i < self.with_ids.len()
            invariant
                0 <= i <= self.with_ids@.len(),
                !self@.nothing,
                markers == spec_entity_markers(world@.entities, e as int),
                (match entity_marker {
                    Some(m) => markers == set![SANDBOXED_MARKER, m],
                    None => markers == Set::<u64>::empty(),
                }),
                forall|k: int| 0 <= k < i ==> markers.contains(#[trigger] self.with_ids@[k]),
            decreases self.with_ids@.len() - i,
        {
            let m = self.with_ids[i];
            let present = match entity_marker {
                Some(em) => m == em || m == SANDBOXED_MARKER,
                None => false,
            };
            if !present {
                proof {
                    assert(self@.with_ids.contains(m));
                    assert(!markers.contains(m));
                }
                return false;
            }
            i = i + 1;
        }
        let mut k: usize = 0;
        while k < self.without_ids.len()
            invariant
                0 <= k <= self.without_ids@.len(),
                !self@.nothing,
                markers == spec_entity_markers(world@.entities, e as int),
                (match entity_marker {
                    Some(m) => markers == set![SANDBOXED_MARKER, m],
                    None => markers == Set::<u64>::empty(),
                }),
                forall|w: int| 0 <= w < self.with_ids@.len()
                    ==> markers.contains(#[trigger] self.with_ids@[w]),
                forall|w: int| 0 <= w < k ==> !markers.contains(#[trigger] self.without_ids@[w]),
            decreases self.without_ids@.len() - k,
        {
            let m = self.without_ids[k];
            let present = match entity_marker {
                Some(em) => m == em || m == SANDBOXED_MARKER,
                None => false,
            };
            if present {
                proof {
                    assert(self@.without_ids.contains(m));
                    assert(markers.contains(m));
                }
                return false;
            }
            k = k + 1;
        }
        proof {
            assert forall|m: u64| self@.with_ids.contains(m) implies markers.contains(m) by {
                let w = choose|w: int|
                    0 <= w < self.with_ids@.len() && self.with_ids@[w] == m;
            }
            assert forall|m: u64| self@.without_ids.contains(m) implies !markers.contains(m) by {
                let w = choose|w: int|
                    0 <= w < self.without_ids@.len() && self.without_ids@[w] == m;
            }
        }
        true
    }
}

/// Two distinct sandboxes match disjoint entity sets: each descriptor
/// requires its own marker and excludes the other's.
pub proof fn lemma_sandboxes_disjoint(
    s: Seq<EntityModel>,
    next_marker: u64,
    r1: int,
    r2: int,
    ms: Set<u64>,
)
    requires
        spec_markers_wf(s, next_marker),
        0 <= r1 < s.len(),
        0 <= r2 < s.len(),
        r1 != r2,
        s[r1].sandbox is Some,
        s[r2].sandbox is Some,
    ensures
        !(spec_access_matches(spec_sandbox_access(s, r1), ms) && spec_access_matches(
            spec_sandbox_access(s, r2),
            ms,
        )),
{
    let m1 = s[r1].sandbox->0.marker;
    if spec_access_matches(spec_sandbox_access(s, r1), ms) && spec_access_matches(
        spec_sandbox_access(s, r2),
        ms,
    ) {
        assert(spec_sandbox_access(s, r1).with_ids.contains(m1));
        assert(ms.contains(m1));
        assert(spec_sandbox_access(s, r2).without_ids.contains(m1));
        assert(!ms.contains(m1));
    }
}

/// A sandbox and the world domain match disjoint entity sets: the sandbox
/// requires the shared tag marker, the world domain excludes it.
pub proof fn lemma_sandbox_world_disjoint(s: Seq<EntityModel>, r: int, ms: Set<u64>)
    requires
        0 <= r < s.len(),
        s[r].sandbox is Some,
    ensures
        !(spec_access_matches(spec_sandbox_access(s, r), ms) && spec_access_matches(
            spec_world_access(),
            ms,
        )),
{
    if spec_access_matches(spec_sandbox_access(s, r), ms) && spec_access_matches(
        spec_world_access(),
        ms,
    ) {
        assert(spec_sandbox_access(s, r).with_ids.contains(SANDBOXED_MARKER));
        assert(spec_world_access().without_ids.contains(SANDBOXED_MARKER));
    }
}

/// What a sandbox descriptor means: it matches exactly the entities tagged
/// into that sandbox.
pub proof fn lemma_sandbox_access_meaning(
    s: Seq<EntityModel>,
    next_marker: u64,
    r: int,
    e: int,
)
    requires
        spec_markers_wf(s, next_marker),
        0 <= r < s.len(),
        s[r].sandbox is Some,
        0 <= e < s.len(),
    ensures
        spec_access_matches(spec_sandbox_access(s, r), spec_entity_markers(s, e)) <==> (s[e].tag
            matches Some(rt) && rt as int == r),
{
    let ms = spec_entity_markers(s, e);
    let a = spec_sandbox_access(s, r);
    let m_r = s[r].sandbox->0.marker;
    if s[e].tag matches Some(rt) && rt as int == r {
        assert(ms =~= set![SANDBOXED_MARKER, m_r]);
        assert forall|m: u64| #[trigger] a.with_ids.contains(m) implies ms.contains(m) by {}
        assert forall|m: u64| #[trigger] a.without_ids.contains(m) implies !ms.contains(m) by {
            assert(spec_other_marker(s, r, m));
            let j = choose|j: int|
                0 <= j < s.len() && j != r && (#[trigger] s[j]).sandbox is Some
                    && s[j].sandbox->0.marker == m;
            assert(m != SANDBOXED_MARKER);
            if j < r {
                assert(s[j].sandbox->0.marker != s[r].sandbox->0.marker);
            }
            if r < j {
                assert(s[r].sandbox->0.marker != s[j].sandbox->0.marker);
            }
        }
    } else {
        if spec_access_matches(a, ms) {
            assert(a.with_ids.contains(m_r));
            assert(ms.contains(m_r));
            assert(s[e].tag is Some);
            let root = s[e].tag->0;
            assert((root as int) < s.len() && s[root as int].sandbox is Some);
            assert(ms =~= set![SANDBOXED_MARKER, s[root as int].sandbox->0.marker]);
            assert(m_r == SANDBOXED_MARKER || m_r == s[root as int].sandbox->0.marker);
            assert(1 <= m_r);
            assert(m_r == s[root as int].sandbox->0.marker);
            if (root as int) < r {
                assert(s[root as int].sandbox->0.marker != s[r].sandbox->0.marker);
            }
            if r < (root as int) {
                assert(s[r].sandbox->0.marker != s[root as int].sandbox->0.marker);
            }
            assert((root as int) == r);
            assert(false);
        }
    }
}

/// What the world descriptor means: it matches exactly the untagged
/// entities.
pub proof fn lemma_world_access_meaning(s: Seq<EntityModel>, next_marker: u64, e: int)
    requires
        spec_markers_wf(s, next_marker),
        0 <= e < s.len(),
        s[e].tag matches Some(t) ==> (t as int) < s.len() && s[t as int].sandbox is Some,
    ensures
        spec_access_matches(spec_world_access(), spec_entity_markers(s, e)) <==> s[e].tag
            is None,
{
    let ms = spec_entity_markers(s, e);
    if s[e].tag is None {
        assert(ms =~= Set::<u64>::empty());
        assert forall|m: u64| spec_world_access().without_ids.contains(m) implies !ms.contains(
            m,
        ) by {}
        assert forall|m: u64| spec_world_access().with_ids.contains(m) implies ms.contains(
            m,
        ) by {}
    } else {
        assert(ms.contains(SANDBOXED_MARKER));
        assert(spec_world_access().without_ids.contains(SANDBOXED_MARKER));
    }
}

/// Represents the access a mod can be given to run in: the world domain, or
/// the sandbox rooted at an entity.
#[derive(Clone, Copy, Debug, PartialEq, Eq, Structural)]
pub enum ModAccess {
    World,
    Sandbox(usize),
}

impl ModAccess {
    /// The schedules configured for this access: a sandbox's own schedules,
    /// or the world's; a vanished sandbox has none.
    pub fn schedules(&self, world: &World, world_schedules: &ModSchedules) -> (r: ModSchedules)
        requires
            world.wf(),
        ensures
            match self {
                ModAccess::World => r@ == world_schedules@,
                ModAccess::Sandbox(e) => r@ == (
                if (*e as int) < world@.entities.len() && world@.entities[*e as int].sandbox
                    is Some {
                    world@.entities[*e as int].sandbox->0.schedules
                } else {
                    Seq::<ModScheduleModel>::empty()
                }),
            },
    {
        match self {
            ModAccess::World => world_schedules.duplicate(),
            ModAccess::Sandbox(e) => {
                if *e < world.len() {
                    match world.schedules_of(*e) {
                        Some(sch) => sch,
                        None => ModSchedules::empty(),
                    }
                } else {
                    ModSchedules::empty()
                }
            },
        }
    }

    /// The filtered access granted: the sandbox's descriptor, the world
    /// descriptor, or nothing when the sandbox has vanished.
    pub fn filtered_access(&self, world: &World) -> (r: FilteredAccess)
        requires
            world.wf(),
        ensures
            match self {
                ModAccess::World => r@ == spec_world_access(),
                ModAccess::Sandbox(e) => if (*e as int) < world@.entities.len()
                    && world@.entities[*e as int].sandbox is Some {
                    r@ == spec_sandbox_access(world@.entities, *e as int)
                } else {
                    r@.nothing
                },
            },
    {
        match self {
            ModAccess::World => FilteredAccess::non_sandboxed(),
            ModAccess::Sandbox(e) => {
                if *e < world.len() {
                    let is_root = match world.marker_of(*e) {
                        Some(_) => true,
                        None => false,
                    };
                    if is_root {
                        FilteredAccess::sandbox_access(world, *e)
                    } else {
                        FilteredAccess::matches_nothing()
                    }
                } else {
                    FilteredAccess::matches_nothing()
                }
            },
        }
    }
}

/// Spawn an entity on behalf of a mod running under `access`: the entity is
/// parented into the mod's sandbox, so it cannot land outside the domain
/// the mod runs in, and it is recorded in the mod's lineage when the
/// despawn-with-mod policy is enabled.
pub fn spawn_for_mod(
    world: &mut World,
    access: ModAccess,
    mod_id: usize,
    track_lineage: bool,
) -> (e: usize)
    requires
        old(world).wf(),
        access matches ModAccess::Sandbox(s) ==> (s as int) < old(world)@.entities.len(),
    ensures
        final(world).wf(),
        e == old(world)@.entities.len(),
        final(world)@.entities =~= old(world)@.entities.push(
            crate::world::EntityModel {
                alive: true,
                parent: (match access {
                    ModAccess::Sandbox(s) => Some(s),
                    ModAccess::World => None,
                }),
                sandbox: None,
                tag: crate::world::spec_child_tag(
                    old(world)@.entities,
                    match access {
                        ModAccess::Sandbox(s) => Some(s),
                        ModAccess::World => None,
                    },
                ),
                created_by: (if track_lineage {
                    Some(mod_id)
                } else {
                    None
                }),
                components: Seq::empty(),
            },
        ),
{
    let parent: Option<usize> = match access {
        ModAccess::Sandbox(s) => Some(s),
        ModAccess::World => None,
    };
    let e = world.spawn(parent);
    if track_lineage {
        let ghost mid = world@.entities;
        world.set_created_by(e, mod_id);
        proof {
            assert(world@.entities =~= old(world)@.entities.push(
                crate::world::EntityModel {
                    alive: true,
                    parent: parent,
                    sandbox: None,
                    tag: crate::world::spec_child_tag(old(world)@.entities, parent),
                    created_by: Some(mod_id),
                    components: Seq::empty(),
                },
            ));
        }
    }
    e
}

} // verus!
