//! Pull-style query resolution.
//!
//! A mod system declares its queries as term lists over component type
//! paths. At compile time each term resolves to a component id; at run time
//! a query yields, in spawn order, exactly the live entities that lie in
//! the system's access domain, hold every required component and lack every
//! excluded one. A cursor remembers how many matches were already yielded,
//! so repeated pull calls resume instead of restarting.

use vstd::prelude::*;
use vstd::string::*;

use crate::access::{AccessModel, FilteredAccess, spec_access_matches, spec_entity_markers};
use crate::component::{
    BridgeModel, ComponentBridge, ComponentRef, spec_path_lookup, spec_resolve_bridge,
    spec_resolve_ref,
};
use crate::world::{EntityModel, World, spec_has_comp};


verus! {

/// One declared query term: data access or an existence filter.
pub enum QueryFor {
    /// Read access to a component's data.
    Ref(String),
    /// Write access to a component's data.
    Mut(String),
    /// The component must be present; no data is exposed.
    With(String),
    /// The component must be absent.
    Without(String),
}

/// Mathematical model of a `QueryFor`.
pub ghost enum QueryForModel {
    Ref(Seq<char>),
    Mut(Seq<char>),
    With(Seq<char>),
    Without(Seq<char>),
}

impl View for QueryFor {
    type V = QueryForModel;

    open spec fn view(&self) -> QueryForModel {
        match self {
            QueryFor::Ref(p) => QueryForModel::Ref(p@),
            QueryFor::Mut(p) => QueryForModel::Mut(p@),
            QueryFor::With(p) => QueryForModel::With(p@),
            QueryFor::Without(p) => QueryForModel::Without(p@),
        }
    }
}

impl DeepView for QueryFor {
    type V = QueryForModel;

    open spec fn deep_view(&self) -> QueryForModel {
        self.view()
    }
}

/// A system parameter: a command buffer handle or a query.
pub enum Param {
    Commands,
    Query(Vec<QueryFor>),
}

/// Mathematical model of a `Param`.
pub ghost enum ParamModel {
    Commands,
    Query(Seq<QueryForModel>),
}

impl View for Param {
    type V = ParamModel;

    open spec fn view(&self) -> ParamModel {
        match self {
            Param::Commands => ParamModel::Commands,
            Param::Query(terms) => ParamModel::Query(terms.deep_view()),
        }
    }
}

impl DeepView for Param {
    type V = ParamModel;

    open spec fn deep_view(&self) -> ParamModel {
        self.view()
    }
}

/// A data term of a query, resolved: which component a yielded handle
/// exposes and whether it may be written through.
#[derive(Clone, Copy, Debug, PartialEq, Eq, Structural)]
pub struct QueryForComponent {
    pub component: ComponentRef,
    pub mutable: bool,
}

/// The data terms of a term list: the type path and write flag of each
/// `Ref` or `Mut` term, in declaration order. Existence filters carry no
/// data and expose nothing.
pub open spec fn spec_data_terms(terms: Seq<QueryForModel>) -> Seq<(Seq<char>, bool)>
    decreases terms.len(),
{
    if terms.len() == 0 {
        Seq::empty()
    } else {
        let prev = spec_data_terms(terms.drop_last());
        match terms.last() {
            QueryForModel::Ref(p) => prev.push((p, false)),
            QueryForModel::Mut(p) => prev.push((p, true)),
            QueryForModel::With(_) => prev,
            QueryForModel::Without(_) => prev,
        }
    }
}

/// The term lists of the query parameters, in order.
pub open spec fn spec_query_params(params: Seq<ParamModel>) -> Seq<Seq<QueryForModel>>
    decreases params.len(),
{
    if params.len() == 0 {
        Seq::empty()
    } else {
        let prev = spec_query_params(params.drop_last());
        match params.last() {
            ParamModel::Query(terms) => prev.push(terms),
            ParamModel::Commands => prev,
        }
    }
}

/// How many terms the query parameters declare in total.
pub open spec fn spec_total_terms(params: Seq<ParamModel>) -> int
    decreases params.len(),
{
    if params.len() == 0 {
        0
    } else {
        spec_total_terms(params.drop_last()) + (match params.last() {
            ParamModel::Query(terms) => terms.len() as int,
            ParamModel::Commands => 0,
        })
    }
}

proof fn lemma_total_terms_take(params: Seq<ParamModel>, i: int)
    requires
        0 <= i <= params.len(),
    ensures
        0 <= spec_total_terms(params.take(i)) <= spec_total_terms(params),
    decreases params.len(),
{
    if params.len() == 0 {
        assert(params.take(i) =~= params);
    } else if i == params.len() {
        assert(params.take(i) =~= params);
        lemma_total_terms_take(params.drop_last(), params.len() - 1);
    } else {
        assert(params.take(i) =~= params.drop_last().take(i));
        lemma_total_terms_take(params.drop_last(), i);
    }
}

/// The component reference a path resolves to in a bridge state, if the
/// path is already mapped.
pub open spec fn spec_ref_of(b: BridgeModel, path: Seq<char>) -> Option<ComponentRef> {
    match spec_path_lookup(b.native, path) {
        Some(id) => Some(ComponentRef { component_id: id, native: true }),
        None => match spec_path_lookup(b.dynamic, path) {
            Some(id) => Some(ComponentRef { component_id: id, native: false }),
            None => None,
        },
    }
}

proof fn lemma_lookup_push(
    entries: Seq<(Seq<char>, u64)>,
    path: Seq<char>,
    id: u64,
    probe: Seq<char>,
)
    ensures
        spec_path_lookup(entries, probe) is Some ==> spec_path_lookup(
            entries.push((path, id)),
            probe,
        ) == spec_path_lookup(entries, probe),
        spec_path_lookup(entries, probe) is None && probe == path ==> spec_path_lookup(
            entries.push((path, id)),
            probe,
        ) == Some(id),
    decreases entries.len(),
{
    if entries.len() == 0 {
        assert(entries.push((path, id))[0] == (path, id));
        assert(entries.push((path, id)).drop_first() =~= Seq::<(Seq<char>, u64)>::empty());
    } else {
        lemma_lookup_push(entries.drop_first(), path, id, probe);
        assert(entries.push((path, id))[0] == entries[0]);
        assert(entries.push((path, id)).drop_first() =~= entries.drop_first().push((path, id)));
    }
}

/// Resolving one path keeps every mapping that already existed, and the
/// resolved path maps to the returned reference afterwards.
pub proof fn lemma_resolve_preserves(b: BridgeModel, q: Seq<char>, p: Seq<char>)
    ensures
        spec_ref_of(spec_resolve_bridge(b, q), q) == Some(spec_resolve_ref(b, q)),
        spec_ref_of(b, p) is Some ==> spec_ref_of(spec_resolve_bridge(b, q), p) == spec_ref_of(
            b,
            p,
        ),
{
    if spec_ref_of(b, q) is None {
        lemma_lookup_push(b.dynamic, q, b.next_dynamic_id, q);
        lemma_lookup_push(b.dynamic, q, b.next_dynamic_id, p);
    }
}

fn resolve_data_terms(terms: &Vec<QueryFor>, bridge: &mut ComponentBridge) -> (r: Vec<
    QueryForComponent,
>)
    requires
        old(bridge).wf(),
        old(bridge)@.next_dynamic_id + terms@.len() <= u64::MAX,
    ensures
        final(bridge).wf(),
        final(bridge)@.next_dynamic_id <= old(bridge)@.next_dynamic_id + terms@.len(),
        r@.len() == spec_data_terms(terms.deep_view()).len(),
        forall|k: int|
            0 <= k < r@.len() ==> {
                let dts = spec_data_terms(terms.deep_view());
                (#[trigger] r@[k]).mutable == dts[k].1 && spec_ref_of(final(bridge)@, dts[k].0)
                    == Some(r@[k].component)
            },
        forall|p: Seq<char>|
            spec_ref_of(old(bridge)@, p) is Some ==> #[trigger] spec_ref_of(final(bridge)@, p)
                == spec_ref_of(old(bridge)@, p),
{
    let mut out: Vec<QueryForComponent> = Vec::new();
    let mut i: usize = 0;
    while i < terms.len()
        invariant
            0 <= i <= terms@.len(),
            bridge.wf(),
            old(bridge)@.next_dynamic_id + terms@.len() <= u64::MAX,
            bridge@.next_dynamic_id <= old(bridge)@.next_dynamic_id + i,
            out@.len() == spec_data_terms(terms.deep_view().take(i as int)).len(),
            forall|k: int|
                0 <= k < out@.len() ==> {
                    let dts = spec_data_terms(terms.deep_view().take(i as int));
                    (#[trigger] out@[k]).mutable == dts[k].1 && spec_ref_of(bridge@, dts[k].0)
                        == Some(out@[k].component)
                },
            forall|p: Seq<char>|
                spec_ref_of(old(bridge)@, p) is Some ==> #[trigger] spec_ref_of(bridge@, p)
                    == spec_ref_of(old(bridge)@, p),
        decreases terms@.len() - i,
    {
        proof {
            assert(terms.deep_view().take(i + 1).drop_last() =~= terms.deep_view().take(i as int));
            assert(terms.deep_view().take(i + 1).last() == terms.deep_view()[i as int]);
        }
        let ghost pre_b = bridge@;
        let ghost pre_out = out@;
        let ghost dts0 = spec_data_terms(terms.deep_view().take(i as int));
        let step: Option<(bool, &String)> = match &terms[i] {
            QueryFor::Ref(p) => Some((false, p)),
            QueryFor::Mut(p) => Some((true, p)),
            QueryFor::With(_) => None,
            QueryFor::Without(_) => None,
        };
        match step {
            Some((mutable, p)) => {
                let cref = bridge.resolve(p.as_str());
                out.push(QueryForComponent { component: cref, mutable });
                proof {
                    assert(out@ =~= pre_out.push(QueryForComponent { component: cref, mutable }));
                    assert forall|pp: Seq<char>|
                        spec_ref_of(old(bridge)@, pp) is Some implies #[trigger] spec_ref_of(
                        bridge@,
                        pp,
                    ) == spec_ref_of(old(bridge)@, pp) by {
                        lemma_resolve_preserves(pre_b, p@, pp);
                    }
                    let dts = spec_data_terms(terms.deep_view().take(i + 1));
                    assert(dts =~= dts0.push((p@, mutable)));
                    assert forall|k: int| 0 <= k < out@.len() implies {
                        &&& (#[trigger] out@[k]).mutable == dts[k].1
                        &&& spec_ref_of(bridge@, dts[k].0) == Some(out@[k].component)
                    } by {
                        if k < pre_out.len() {
                            assert(dts[k] == dts0[k]);
                            assert(spec_ref_of(pre_b, dts0[k].0) == Some(pre_out[k].component));
                            lemma_resolve_preserves(pre_b, p@, dts0[k].0);
                        } else {
                            assert(out@[k].component == spec_resolve_ref(pre_b, p@));
                            lemma_resolve_preserves(pre_b, p@, p@);
                        }
                    }
                }
            },
            None => {
                proof {
                    let dts = spec_data_terms(terms.deep_view().take(i + 1));
                    assert(dts =~= dts0);
                }
            },
        }
        i = i + 1;
    }
    proof {
        assert(terms.deep_view().take(terms@.len() as int) =~= terms.deep_view());
    }
    out
}

/// The static lookup a system's queries compile to: for each query
/// parameter, the resolved data terms in declaration order.
pub struct QueryResolver(pub Vec<Vec<QueryForComponent>>);

impl QueryResolver {
    /// Compile the query parameters of a system.
    ///
    /// Each query contributes one entry; within it, only the `Ref` and
    /// `Mut` terms appear, in order, with their write flags, each resolved
    /// against the bridge (allocating dynamic slots as needed). Existence
    /// filters expose no handle.
    pub fn new(params: &Vec<Param>, bridge: &mut ComponentBridge) -> (r: QueryResolver)
        requires
            old(bridge).wf(),
            old(bridge)@.next_dynamic_id + spec_total_terms(params.deep_view()) <= u64::MAX,
        ensures
            final(bridge).wf(),
            r.0@.len() == spec_query_params(params.deep_view()).len(),
            forall|q: int|
                0 <= q < r.0@.len() ==> {
                    let dts = spec_data_terms(spec_query_params(params.deep_view())[q]);
                    &&& (#[trigger] r.0@[q])@.len() == dts.len()
                    &&& forall|k: int|
                        0 <= k < dts.len() ==> (#[trigger] r.0@[q]@[k]).mutable == dts[k].1
                            && spec_ref_of(final(bridge)@, dts[k].0) == Some(
                            r.0@[q]@[k].component,
                        )
                },
    {
        let mut out: Vec<Vec<QueryForComponent>> = Vec::new();
        let mut i: usize = 0;
        while i < params.len()
            invariant
                0 <= i <= params@.len(),
                bridge.wf(),
                old(bridge)@.next_dynamic_id + spec_total_terms(params.deep_view()) <= u64::MAX,
                bridge@.next_dynamic_id <= old(bridge)@.next_dynamic_id + spec_total_terms(
                    params.deep_view().take(i as int),
                ),
                out@.len() == spec_query_params(params.deep_view().take(i as int)).len(),
                forall|q: int|
                    0 <= q < out@.len() ==> {
                        let dts = spec_data_terms(
                            spec_query_params(params.deep_view().take(i as int))[q],
                        );
                        &&& (#[trigger] out@[q])@.len() == dts.len()
                        &&& forall|k: int|
                            0 <= k < dts.len() ==> (#[trigger] out@[q]@[k]).mutable == dts[k].1
                                && spec_ref_of(bridge@, dts[k].0) == Some(out@[q]@[k].component)
                    },
            decreases params@.len() - i,
        {
            proof {
                assert(params.deep_view().take(i + 1).drop_last() =~= params.deep_view().take(
                    i as int,
                ));
                assert(params.deep_view().take(i + 1).last() == params.deep_view()[i as int]);
                lemma_total_terms_take(params.deep_view(), i + 1);
            }
            let ghost pre_b = bridge@;
            let ghost pre_out = out@;
            let ghost qps0 = spec_query_params(params.deep_view().take(i as int));
            match &params[i] {
                Param::Commands => {
                    proof {
                        assert(spec_query_params(params.deep_view().take(i + 1)) =~= qps0);
                    }
                },
                Param::Query(terms) => {
                    let comps = resolve_data_terms(terms, bridge);
                    out.push(comps);
                    proof {
                        let qps = spec_query_params(params.deep_view().take(i + 1));
                        assert(qps =~= qps0.push(terms.deep_view()));
                        assert(out@ =~= pre_out.push(comps));
                        assert forall|q: int| 0 <= q < out@.len() implies {
                            let dts = spec_data_terms(qps[q]);
                            &&& (#[trigger] out@[q])@.len() == dts.len()
                            &&& forall|k: int|
                                0 <= k < dts.len() ==> (#[trigger] out@[q]@[k]).mutable == dts[k].1
                                    && spec_ref_of(bridge@, dts[k].0) == Some(
                                    out@[q]@[k].component,
                                )
                        } by {
                            let dts = spec_data_terms(qps[q]);
                            if q < pre_out.len() {
                                assert(qps[q] == qps0[q]);
                                assert forall|k: int|
                                    0 <= k < dts.len() implies (#[trigger] out@[q]@[k]).mutable
                                        == dts[k].1 && spec_ref_of(bridge@, dts[k].0) == Some(
                                    out@[q]@[k].component,
                                ) by {
                                    assert(out@[q] == pre_out[q]);
                                    assert(spec_ref_of(pre_b, dts[k].0) == Some(
                                        pre_out[q]@[k].component,
                                    ));
                                }
                            } else {
                                assert(out@[q] == comps);
                            }
                        }
                    }
                },
            }
            i = i + 1;
        }
        proof {
            assert(params.deep_view().take(params@.len() as int) =~= params.deep_view());
        }
        QueryResolver(out)
    }
}

/// Why a component access through a query handle was refused.
#[derive(Clone, Copy, Debug, PartialEq, Eq, Structural)]
pub enum QueryAccessError {
    /// The query has no component at this index.
    UnknownComponentIndex,
    /// The component was declared read-only in the query terms.
    NotMutable,
    /// The entity does not carry the component.
    Missing,
}

impl QueryResolver {
    /// Read the serialized value of the `index`-th data component of query
    /// `id` on an entity.
    pub fn get(
        &self,
        id: QueryId,
        index: usize,
        world: &World,
        entity: usize,
    ) -> (r: Result<String, QueryAccessError>)
        requires
            world.wf(),
            (id.0 as int) < self.0@.len(),
            (entity as int) < world@.entities.len(),
        ensures
            match r {
                Ok(v) => (index as int) < self.0@[id.0 as int]@.len()
                    && crate::world::spec_comp_lookup(
                    world@.entities[entity as int].components,
                    self.0@[id.0 as int]@[index as int].component.component_id,
                ) == Some(v@),
                Err(e) => {
                    &&& (e == QueryAccessError::UnknownComponentIndex || e
                        == QueryAccessError::Missing)
                    &&& (e == QueryAccessError::UnknownComponentIndex <==> (index as int)
                        >= self.0@[id.0 as int]@.len())
                    &&& (e == QueryAccessError::Missing <==> ((index as int) < self.0@[
                        id.0 as int
                    ]@.len() && crate::world::spec_comp_lookup(
                        world@.entities[entity as int].components,
                        self.0@[id.0 as int]@[index as int].component.component_id,
                    ) is None))
                },
            },
    {
        let components = &self.0[id.0];
        if index >= components.len() {
            return Err(QueryAccessError::UnknownComponentIndex);
        }
        let cref = components[index].component;
        match world.get_component(entity, cref.component_id) {
            Some(v) => Ok(v.clone()),
            None => Err(QueryAccessError::Missing),
        }
    }

    /// Overwrite the serialized value of the `index`-th data component of
    /// query `id` on an entity. A component declared read-only in the query
    /// terms cannot be written through its handle.
    pub fn set(
        &self,
        id: QueryId,
        index: usize,
        world: &mut World,
        entity: usize,
        value: String,
    ) -> (r: Result<(), QueryAccessError>)
        requires
            old(world).wf(),
            (id.0 as int) < self.0@.len(),
            (entity as int) < old(world)@.entities.len(),
        ensures
            final(world).wf(),
            match r {
                Ok(_) => {
                    &&& (index as int) < self.0@[id.0 as int]@.len()
                    &&& self.0@[id.0 as int]@[index as int].mutable
                    &&& final(world)@.entities =~= old(world)@.entities.update(
                        entity as int,
                        EntityModel {
                            components: crate::world::spec_comp_insert(
                                old(world)@.entities[entity as int].components,
                                self.0@[id.0 as int]@[index as int].component.component_id,
                                value@,
                            ),
                            ..old(world)@.entities[entity as int]
                        },
                    )
                },
                Err(e) => {
                    &&& final(world)@ == old(world)@
                    &&& (e == QueryAccessError::UnknownComponentIndex || e
                        == QueryAccessError::NotMutable)
                    &&& (e == QueryAccessError::UnknownComponentIndex <==> (index as int)
                        >= self.0@[id.0 as int]@.len())
                    &&& (e == QueryAccessError::NotMutable <==> ((index as int)
                        < self.0@[id.0 as int]@.len() && !self.0@[id.0 as int]@[
                        index as int
                    ].mutable))
                },
            },
    {
        let components = &self.0[id.0];
        if index >= components.len() {
            return Err(QueryAccessError::UnknownComponentIndex);
        }
        if !components[index].mutable {
            return Err(QueryAccessError::NotMutable);
        }
        let cref = components[index].component;
        world.insert_component(entity, cref.component_id, value);
        Ok(())
    }
}

/// Hands out one fresh query index per query parameter of a system.
pub struct QueryIdGenerator {
    pub next: usize,
}

/// An index into the compiled queries of one system.
#[derive(Clone, Copy, Debug, PartialEq, Eq, Structural)]
pub struct QueryId(pub usize);

impl QueryIdGenerator {
    /// Starts at index zero.
    pub fn new() -> (r: QueryIdGenerator)
        ensures
            r.next == 0,
    {
        QueryIdGenerator { next: 0 }
    }

    /// The next query index, in order of declaration.
    pub fn generate(&mut self) -> (r: QueryId)
        requires
            old(self).next < usize::MAX,
        ensures
            r.0 == old(self).next,
            final(self).next == old(self).next + 1,
    {
        let index = self.next;
        self.next = self.next + 1;
        QueryId(index)
    }
}

/// True when the resolved term holds of entity `e`: required components are
/// present, excluded ones absent.
pub open spec fn spec_term_matches(s: Seq<EntityModel>, e: int, t: QueryForComponent) -> bool {
    spec_has_comp(s[e].components, t.component.component_id)
}

/// True when a query over the given data terms and existence filters yields
/// entity `e`: the entity is alive, lies in the access domain, holds every
/// required component and lacks every excluded one.
pub open spec fn spec_query_matches(
    s: Seq<EntityModel>,
    e: int,
    required: Seq<u64>,
    excluded: Seq<u64>,
    access: AccessModel,
) -> bool {
    &&& 0 <= e < s.len()
    &&& s[e].alive
    &&& spec_access_matches(access, spec_entity_markers(s, e))
    &&& forall|k: int|
        0 <= k < required.len() ==> spec_has_comp(s[e].components, #[trigger] required[k])
    &&& forall|k: int|
        0 <= k < excluded.len() ==> !spec_has_comp(s[e].components, #[trigger] excluded[k])
}

fn entity_matches(
    world: &World,
    e: usize,
    required: &Vec<u64>,
    excluded: &Vec<u64>,
    access: &FilteredAccess,
) -> (r: bool)
    requires
        world.wf(),
        (e as int) < world@.entities.len(),
    ensures
        r == spec_query_matches(world@.entities, e as int, required@, excluded@, access@),
{
    if !world.is_alive(e) {
        return false;
    }
    if !access.matches_entity(world, e) {
        return false;
    }
    let mut k: usize = 0;
    while k < required.len()
        invariant
            0 <= k <= required@.len(),
            world.wf(),
            (e as int) < world@.entities.len(),
            forall|m: int|
                0 <= m < k ==> spec_has_comp(
                    world@.entities[e as int].components,
                    #[trigger] required@[m],
                ),
        decreases required@.len() - k,
    {
        match world.get_component(e, required[k]) {
            Some(_) => {},
            None => {
                return false;
            },
        }
        k = k + 1;
    }
    let mut k2: usize = 0;
    while k2 < excluded.len()
        invariant
            0 <= k2 <= excluded@.len(),
            world.wf(),
            (e as int) < world@.entities.len(),
            forall|m: int|
                0 <= m < k2 ==> !spec_has_comp(
                    world@.entities[e as int].components,
                    #[trigger] excluded@[m],
                ),
        decreases excluded@.len() - k2,
    {
        match world.get_component(e, excluded[k2]) {
            Some(_) => {
                return false;
            },
            None => {},
        }
        k2 = k2 + 1;
    }
    true
}

/// Run a query: all matching entities, in spawn order.
pub fn query_entities(
    world: &World,
    required: &Vec<u64>,
    excluded: &Vec<u64>,
    access: &FilteredAccess,
) -> (r: Vec<usize>)
    requires
        world.wf(),
    ensures
        forall|k: int|
            0 <= k < r@.len() ==> spec_query_matches(
                world@.entities,
                #[trigger] r@[k] as int,
                required@,
                excluded@,
                access@,
            ),
        forall|e: int|
            0 <= e < world@.entities.len() && spec_query_matches(
                world@.entities,
                e,
                required@,
                excluded@,
                access@,
            ) ==> r@.contains(e as usize),
        forall|a: int, b: int| 0 <= a < b < r@.len() ==> r@[a] < r@[b],
{
    let n = world.len();
    let mut out: Vec<usize> = Vec::new();
    let mut i: usize = 0;
    while i < n
        invariant
            0 <= i <= n,
            n == world@.entities.len(),
            world.wf(),
            forall|k: int|
                0 <= k < out@.len() ==> (out@[k] as int) < i as int && spec_query_matches(
                    world@.entities,
                    #[trigger] out@[k] as int,
                    required@,
                    excluded@,
                    access@,
                ),
            forall|e: int|
                0 <= e < i && spec_query_matches(
                    world@.entities,
                    e,
                    required@,
                    excluded@,
                    access@,
                ) ==> out@.contains(e as usize),
            forall|a: int, b: int| 0 <= a < b < out@.len() ==> out@[a] < out@[b],
        decreases n - i,
    {
        if entity_matches(world, i, required, excluded, access) {
            let ghost prev = out@;
            out.push(i);
            proof {
                assert(out@ =~= prev.push(i));
                assert forall|a: int, b: int| 0 <= a < b < out@.len() implies out@[a]
                    < out@[b] by {
                    if b < prev.len() {
                        assert(prev[a] < prev[b]);
                    } else {
                        assert(out@[b] == i);
                        assert(spec_query_matches(
                            world@.entities,
                            #[trigger] prev[a] as int,
                            required@,
                            excluded@,
                            access@,
                        ) && (prev[a] as int) < i as int);
                    }
                }
                assert forall|e: int|
                    0 <= e < i + 1 && spec_query_matches(
                        world@.entities,
                        e,
                        required@,
                        excluded@,
                        access@,
                    ) implies out@.contains(e as usize) by {
                    if e < i {
                        let w = choose|w: int| 0 <= w < prev.len() && prev[w] == e as usize;
                        assert(out@[w] == e as usize);
                    } else {
                        assert(out@[prev.len() as int] == i);
                    }
                }
            }
        } else {
            proof {
                assert forall|e: int|
                    0 <= e < i + 1 && spec_query_matches(
                        world@.entities,
                        e,
                        required@,
                        excluded@,
                        access@,
                    ) implies out@.contains(e as usize) by {
                    assert(e != i);
                }
            }
        }
        i = i + 1;
    }
    out
}

/// How many entities below `upto` match the query.
pub open spec fn spec_match_count(
    s: Seq<EntityModel>,
    required: Seq<u64>,
    excluded: Seq<u64>,
    access: AccessModel,
    upto: int,
) -> int
    decreases upto,
{
    if upto <= 0 {
        0
    } else {
        spec_match_count(s, required, excluded, access, upto - 1) + (
        if spec_query_matches(s, upto - 1, required, excluded, access) {
            1int
        } else {
            0int
        })
    }
}

/// A cursor over one live query invocation: remembers how many matches have
/// already been yielded, so repeated pull calls resume rather than restart.
#[derive(Clone, Copy, Debug, PartialEq, Eq, Structural)]
pub struct QueryCursor {
    pub position: usize,
}

impl QueryCursor {
    /// A cursor at the first match.
    pub fn new() -> (r: QueryCursor)
        ensures
            r.position == 0,
    {
        QueryCursor { position: 0 }
    }

    /// Advance by one match, returning the cursor as it was before.
    pub fn increment(&mut self) -> (r: QueryCursor)
        requires
            old(self).position < usize::MAX,
        ensures
            r == *old(self),
            final(self).position == old(self).position + 1,
    {
        let original = QueryCursor { position: self.position };
        self.position = self.position + 1;
        original
    }

    /// The entity at this cursor position: the `position`-th match of the
    /// query in spawn order, or nothing once the results are exhausted.
    pub fn entity(
        &self,
        world: &World,
        required: &Vec<u64>,
        excluded: &Vec<u64>,
        access: &FilteredAccess,
    ) -> (r: Option<usize>)
        requires
            world.wf(),
        ensures
            match r {
                Some(e) => spec_query_matches(
                    world@.entities,
                    e as int,
                    required@,
                    excluded@,
                    access@,
                ) && spec_match_count(
                    world@.entities,
                    required@,
                    excluded@,
                    access@,
                    e as int,
                ) == self.position,
                None => spec_match_count(
                    world@.entities,
                    required@,
                    excluded@,
                    access@,
                    world@.entities.len() as int,
                ) <= self.position,
            },
    {
        let n = world.len();
        let mut seen: usize = 0;
        let mut i: usize = 0;
        while i < n
            invariant
                0 <= i <= n,
                n == world@.entities.len(),
                world.wf(),
                seen <= i,
                seen as int == spec_match_count(
                    world@.entities,
                    required@,
                    excluded@,
                    access@,
                    i as int,
                ),
                seen <= self.position,
            decreases n - i,
        {
            if entity_matches(world, i, required, excluded, access) {
                if seen == self.position {
                    return Some(i);
                }
                seen = seen + 1;
            }
            i = i + 1;
        }
        None
    }
}

} // verus!
