//! The dynamic component bridge.
//!
//! A component type-path resolves to exactly one of two backings: a native
//! reflected type known to the host, or a dynamic slot allocated for a
//! guest-defined type the host has never seen. The first `resolve` call for
//! an unknown path allocates its slot; afterwards the path maps to that slot
//! for the life of the registry. Values travel through the bridge in
//! serialized form and are stored under the resolved component id.

use vstd::prelude::*;
use vstd::string::*;

use crate::paths::str_eq;
use crate::world::{World, spec_comp_insert, spec_comp_lookup};

verus! {

/// The serialized payload stored for a guest-defined component.
pub struct WasmComponent {
    pub serialized_value: String,
}

/// A resolved component reference.
///
/// `native` records which backing the type path resolved to; the component
/// id indexes the world's component store either way.
#[derive(Clone, Copy, Debug, PartialEq, Eq, Structural)]
pub struct ComponentRef {
    pub component_id: u64,
    pub native: bool,
}

/// The first id mapped to `path` in a path-to-id table.
pub open spec fn spec_path_lookup(
    entries: Seq<(Seq<char>, u64)>,
    path: Seq<char>,
) -> Option<u64>
    decreases entries.len(),
{
    if entries.len() == 0 {
        None
    } else if entries[0].0 == path {
        Some(entries[0].1)
    } else {
        spec_path_lookup(entries.drop_first(), path)
    }
}

/// The pairs of a path-to-id table, with the path as a sequence.
pub open spec fn spec_table_view(v: Seq<(String, u64)>) -> Seq<(Seq<char>, u64)> {
    Seq::new(v.len(), |i: int| (v[i].0@, v[i].1))
}

/// The registries behind the bridge: the native reflected components the
/// host exports, and the process-lifetime table of dynamic slots keyed by
/// type path.
pub struct ComponentBridge {
    native: Vec<(String, u64)>,
    dynamic: Vec<(String, u64)>,
    dynamic_base: u64,
    next_dynamic_id: u64,
}

/// Mathematical model of a `ComponentBridge`.
pub ghost struct BridgeModel {
    pub native: Seq<(Seq<char>, u64)>,
    pub dynamic: Seq<(Seq<char>, u64)>,
    pub dynamic_base: u64,
    pub next_dynamic_id: u64,
}

impl View for ComponentBridge {
    type V = BridgeModel;

    closed spec fn view(&self) -> BridgeModel {
        BridgeModel {
            native: spec_table_view(self.native@),
            dynamic: spec_table_view(self.dynamic@),
            dynamic_base: self.dynamic_base,
            next_dynamic_id: self.next_dynamic_id,
        }
    }
}

impl ComponentBridge {
    /// Every native id lies below the dynamic range, every dynamic id lies
    /// inside it and below the allocation cursor, and no path or id is
    /// mapped twice in either table: a type path maps to exactly one of the
    /// two backings.
    pub open spec fn wf(self) -> bool {
        &&& self@.dynamic_base <= self@.next_dynamic_id
        &&& forall|i: int|
            0 <= i < self@.native.len() ==> (#[trigger] self@.native[i]).1 < self@.dynamic_base
        &&& forall|i: int|
            0 <= i < self@.dynamic.len() ==> self@.dynamic_base <= (
            #[trigger] self@.dynamic[i]).1 < self@.next_dynamic_id
        &&& forall|i: int, j: int|
            0 <= i < j < self@.native.len() ==> (#[trigger] self@.native[i]).0 != (
            #[trigger] self@.native[j]).0
        &&& forall|i: int, j: int|
            0 <= i < j < self@.dynamic.len() ==> (#[trigger] self@.dynamic[i]).0 != (
            #[trigger] self@.dynamic[j]).0 && self@.dynamic[i].1 != self@.dynamic[j].1
    }

    /// A bridge over the given native exports, with the dynamic id range
    /// starting at `dynamic_base`.
    pub fn new(native: Vec<(String, u64)>, dynamic_base: u64) -> (r: ComponentBridge)
        requires
            forall|i: int|
                0 <= i < native@.len() ==> (#[trigger] native@[i]).1 < dynamic_base,
            forall|i: int, j: int|
                0 <= i < j < native@.len() ==> (#[trigger] native@[i]).0@ != (
                #[trigger] native@[j]).0@,
        ensures
            r.wf(),
            r@.native == spec_table_view(native@),
            r@.dynamic =~= Seq::<(Seq<char>, u64)>::empty(),
            r@.dynamic_base == dynamic_base,
            r@.next_dynamic_id == dynamic_base,
    {
        let r = ComponentBridge {
            native,
            dynamic: Vec::new(),
            dynamic_base,
            next_dynamic_id: dynamic_base,
        };
        proof {
            assert(r@.dynamic =~= Seq::<(Seq<char>, u64)>::empty());
        }
        r
    }
}

fn table_lookup(entries: &Vec<(String, u64)>, path: &str) -> (r: Option<u64>)
    ensures
        r == spec_path_lookup(spec_table_view(entries@), path@),
{
    let ghost t = spec_table_view(entries@);
    let mut i: usize = 0;
    proof {
        assert(t.skip(0) =~= t);
    }
    while i < entries.len()
        invariant
            0 <= i <= entries@.len(),
            t == spec_table_view(entries@),
            spec_path_lookup(t, path@) == spec_path_lookup(t.skip(i as int), path@),
        decreases entries@.len() - i,
    {
        proof {
            assert(t.skip(i as int).drop_first() =~= t.skip(i + 1));
            assert(t.skip(i as int)[0] == t[i as int]);
        }
        if str_eq(entries[i].0.as_str(), path) {
            return Some(entries[i].1);
        }
        i = i + 1;
    }
    proof {
        assert(t.skip(entries@.len() as int) =~= Seq::<(Seq<char>, u64)>::empty());
    }
    None
}

/// What `resolve` hands back: the reference, decided by where the path was
/// found or allocated.
pub open spec fn spec_resolve_ref(b: BridgeModel, path: Seq<char>) -> ComponentRef {
    match spec_path_lookup(b.native, path) {
        Some(id) => ComponentRef { component_id: id, native: true },
        None => match spec_path_lookup(b.dynamic, path) {
            Some(id) => ComponentRef { component_id: id, native: false },
            None => ComponentRef { component_id: b.next_dynamic_id, native: false },
        },
    }
}

/// The bridge state after `resolve`: unchanged unless the path was unknown,
/// in which case a fresh dynamic slot is allocated for it.
pub open spec fn spec_resolve_bridge(b: BridgeModel, path: Seq<char>) -> BridgeModel {
    if spec_path_lookup(b.native, path) is Some || spec_path_lookup(b.dynamic, path) is Some {
        b
    } else {
        BridgeModel {
            dynamic: b.dynamic.push((path, b.next_dynamic_id)),
            next_dynamic_id: (b.next_dynamic_id + 1) as u64,
            ..b
        }
    }
}

proof fn lemma_path_lookup_some(entries: Seq<(Seq<char>, u64)>, path: Seq<char>)
    ensures
        spec_path_lookup(entries, path) matches Some(id) ==> exists|i: int|
            0 <= i < entries.len() && (#[trigger] entries[i]).0 == path && entries[i].1 == id,
        spec_path_lookup(entries, path) is None ==> forall|i: int|
            0 <= i < entries.len() ==> (#[trigger] entries[i]).0 != path,
    decreases entries.len(),
{
    if entries.len() > 0 {
        lemma_path_lookup_some(entries.drop_first(), path);
        if spec_path_lookup(entries, path) is None {
            assert(entries[0].0 != path);
            assert(spec_path_lookup(entries.drop_first(), path) is None);
            assert forall|i: int| 0 <= i < entries.len() implies (#[trigger] entries[i]).0
                != path by {
                if i > 0 {
                    assert(entries.drop_first()[i - 1] == entries[i]);
                }
            }
        }
    }
}

impl ComponentBridge {
    /// Resolve a type path to its component reference.
    ///
    /// The native registry is consulted first; a path with no native
    /// registration resolves to its dynamic slot, allocated now if this is
    /// the first reference to it.
    pub fn resolve(&mut self, type_path: &str) -> (r: ComponentRef)
        requires
            old(self).wf(),
            old(self)@.next_dynamic_id < u64::MAX,
        ensures
            final(self).wf(),
            r == spec_resolve_ref(old(self)@, type_path@),
            final(self)@ == spec_resolve_bridge(old(self)@, type_path@),
    {
        match table_lookup(&self.native, type_path) {
            Some(id) => ComponentRef { component_id: id, native: true },
            None => {
                match table_lookup(&self.dynamic, type_path) {
                    Some(id) => ComponentRef { component_id: id, native: false },
                    None => {
                        let id = self.next_dynamic_id;
                        self.next_dynamic_id = self.next_dynamic_id + 1;
                        let ghost old_dyn = self@.dynamic;
                        self.dynamic.push((String::from_str(type_path), id));
                        proof {
                            assert(self@.dynamic =~= old_dyn.push((type_path@, id)));
                            assert(self@ == spec_resolve_bridge(old(self)@, type_path@));
                            lemma_path_lookup_some(old_dyn, type_path@);
                            assert forall|i: int, j: int|
                                0 <= i < j < self@.dynamic.len() implies (
                            #[trigger] self@.dynamic[i]).0 != (#[trigger] self@.dynamic[j]).0
                                && self@.dynamic[i].1 != self@.dynamic[j].1 by {
                                if j == old_dyn.len() {
                                    assert(self@.dynamic[i] == old_dyn[i]);
                                }
                            }
                        }
                        ComponentRef { component_id: id, native: false }
                    },
                }
            },
        }
    }
}

/// Store a serialized component value on an entity through the bridge.
///
/// The type path is resolved (allocating a dynamic slot if needed) and the
/// value is stored under the resolved component id: a native path applies
/// the value to the reflected component, a dynamic path overwrites the
/// stored payload, and in both cases the stored serialized form becomes
/// `value`.
pub fn insert_serialized(
    world: &mut World,
    bridge: &mut ComponentBridge,
    e: usize,
    type_path: &str,
    value: String,
) -> (r: ComponentRef)
    requires
        old(world).wf(),
        old(bridge).wf(),
        (e as int) < old(world)@.entities.len(),
        old(bridge)@.next_dynamic_id < u64::MAX,
    ensures
        final(world).wf(),
        final(bridge).wf(),
        r == spec_resolve_ref(old(bridge)@, type_path@),
        final(bridge)@ == spec_resolve_bridge(old(bridge)@, type_path@),
        final(world)@.entities =~= old(world)@.entities.update(
            e as int,
            crate::world::EntityModel {
                components: spec_comp_insert(
                    old(world)@.entities[e as int].components,
                    r.component_id,
                    value@,
                ),
                ..old(world)@.entities[e as int]
            },
        ),
{
    let cref = bridge.resolve(type_path);
    world.insert_component(e, cref.component_id, value);
    cref
}

/// Read the serialized value of a component on an entity through the
/// bridge: a native component is reflected and serialized, a dynamic one
/// returns its stored payload verbatim; both read the stored serialized
/// form under the resolved id.
pub fn get_serialized<'a>(
    world: &'a World,
    e: usize,
    cref: ComponentRef,
) -> (r: Option<&'a String>)
    requires
        world.wf(),
        (e as int) < world@.entities.len(),
    ensures
        match r {
            Some(v) => spec_comp_lookup(world@.entities[e as int].components, cref.component_id)
                == Some(v@),
            None => spec_comp_lookup(world@.entities[e as int].components, cref.component_id)
                is None,
        },
{
    world.get_component(e, cref.component_id)
}

} // verus!
