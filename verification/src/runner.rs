//! The per-call execution context.
//!
//! Every guest call runs against exactly one context: a setup call carries
//! the mod's identity, version and accesses; a system call carries the
//! access its unit was compiled for. The context also owns the per-call
//! resource table through which every guest-visible handle goes. The
//! context is torn down as soon as the call returns: afterwards the state
//! is uninitialized again, the table is empty, and any handle kept from the
//! call fails loudly instead of reaching stale host state.

use vstd::prelude::*;
use vstd::string::*;

use crate::access::ModAccess;
use crate::query::{Param, ParamModel, QueryId};
use crate::system::{DynamicSystemId, WasmSystem, WasmSystemModel};

verus! {

/// A guest-visible handle into the context's resource table.
#[derive(Clone, Copy, Debug, PartialEq, Eq, Structural)]
pub struct Handle(pub usize);

/// The host-side resource behind a handle.
pub enum HostResource {
    /// The app handle a setup call registers systems through.
    App,
    /// A deferred command buffer handle.
    Commands,
    /// A system under construction during setup.
    System(WasmSystem),
    /// A live query of a running system.
    Query(QueryId),
    /// An entity handle.
    Entity(usize),
}

/// Mathematical model of a `HostResource`.
pub ghost enum ResourceModel {
    App,
    Commands,
    System(WasmSystemModel),
    Query(QueryId),
    Entity(usize),
}

impl View for HostResource {
    type V = ResourceModel;

    open spec fn view(&self) -> ResourceModel {
        match self {
            HostResource::App => ResourceModel::App,
            HostResource::Commands => ResourceModel::Commands,
            HostResource::System(s) => ResourceModel::System(s@),
            HostResource::Query(q) => ResourceModel::Query(*q),
            HostResource::Entity(e) => ResourceModel::Entity(*e),
        }
    }
}

impl DeepView for HostResource {
    type V = ResourceModel;

    open spec fn deep_view(&self) -> ResourceModel {
        self.view()
    }
}

/// What kind of call the context currently serves.
pub enum ContextState {
    /// No call is in flight; every handle is dead.
    Uninitialized,
    /// A setup call of the named mod.
    Setup {
        mod_id: usize,
        mod_name: String,
        asset_id: u64,
        asset_version: u64,
        app_init: bool,
    },
    /// One tick of a compiled system, under its access.
    RunSystem { access: ModAccess },
}

/// Mathematical model of a `ContextState`.
pub ghost enum ContextStateModel {
    Uninitialized,
    Setup {
        mod_id: usize,
        mod_name: Seq<char>,
        asset_id: u64,
        asset_version: u64,
        app_init: bool,
    },
    RunSystem { access: ModAccess },
}

impl View for ContextState {
    type V = ContextStateModel;

    open spec fn view(&self) -> ContextStateModel {
        match self {
            ContextState::Uninitialized => ContextStateModel::Uninitialized,
            ContextState::Setup { mod_id, mod_name, asset_id, asset_version, app_init } =>
                ContextStateModel::Setup {
                mod_id: *mod_id,
                mod_name: mod_name@,
                asset_id: *asset_id,
                asset_version: *asset_version,
                app_init: *app_init,
            },
            ContextState::RunSystem { access } => ContextStateModel::RunSystem {
                access: *access,
            },
        }
    }
}

/// Why a host call through the context was refused.
#[derive(Clone, Copy, Debug, PartialEq, Eq, Structural)]
pub enum ContextError {
    /// The call is only legal during a setup call.
    NotInSetup,
    /// The call is only legal while a system is running.
    NotInSystem,
    /// The app handle may be created only once per setup call.
    AppAlreadyCreated,
    /// The handle does not name a live resource of this call.
    DeadHandle,
    /// The handle names a resource of a different kind.
    WrongResource,
    /// The system was already added to the scheduler.
    AlreadyBuilt,
}

/// The per-call execution context.
pub struct HostContext {
    state: ContextState,
    resources: Vec<HostResource>,
}

/// Mathematical model of a `HostContext`.
pub ghost struct ContextModel {
    pub state: ContextStateModel,
    pub resources: Seq<ResourceModel>,
}

impl View for HostContext {
    type V = ContextModel;

    closed spec fn view(&self) -> ContextModel {
        ContextModel { state: self.state@, resources: self.resources.deep_view() }
    }
}

impl HostContext {
    /// A context with no call in flight.
    pub fn new() -> (r: HostContext)
        ensures
            r@.state is Uninitialized,
            r@.resources =~= Seq::<ResourceModel>::empty(),
    {
        let r = HostContext { state: ContextState::Uninitialized, resources: Vec::new() };
        proof {
            assert(r@.resources =~= Seq::<ResourceModel>::empty());
        }
        r
    }

    /// True while no call is in flight.
    pub fn is_idle(&self) -> (r: bool)
        ensures
            r == (self@.state is Uninitialized),
    {
        match &self.state {
            ContextState::Uninitialized => true,
            _ => false,
        }
    }

    /// Enter a setup call. Exactly one call may be in flight.
    pub fn begin_setup(
        &mut self,
        mod_id: usize,
        mod_name: String,
        asset_id: u64,
        asset_version: u64,
    )
        requires
            old(self)@.state is Uninitialized,
        ensures
            final(self)@.state == (ContextStateModel::Setup {
                mod_id,
                mod_name: mod_name@,
                asset_id,
                asset_version,
                app_init: false,
            }),
            final(self)@.resources == old(self)@.resources,
    {
        self.state = ContextState::Setup {
            mod_id,
            mod_name,
            asset_id,
            asset_version,
            app_init: false,
        };
    }

    /// Enter one tick of a compiled system. Exactly one call may be in
    /// flight.
    pub fn begin_run_system(&mut self, access: ModAccess)
        requires
            old(self)@.state is Uninitialized,
        ensures
            final(self)@.state == (ContextStateModel::RunSystem { access }),
            final(self)@.resources == old(self)@.resources,
    {
        self.state = ContextState::RunSystem { access };
    }

    /// Leave the current call: the state is reset to uninitialized and
    /// every handle of the call dies. This runs whether the guest returned
    /// or trapped.
    pub fn end(&mut self)
        ensures
            final(self)@.state is Uninitialized,
            final(self)@.resources =~= Seq::<ResourceModel>::empty(),
    {
        self.state = ContextState::Uninitialized;
        self.resources.clear();
        proof {
            assert(self@.resources =~= Seq::<ResourceModel>::empty());
        }
    }

    /// Create the app handle of a setup call. It exists at most once per
    /// call, and only setup calls have one.
    pub fn app_new(&mut self) -> (r: Result<Handle, ContextError>)
        ensures
            match r {
                Ok(h) => {
                    &&& old(self)@.state matches ContextStateModel::Setup { app_init, .. }
                        && !app_init
                    &&& h.0 == old(self)@.resources.len()
                    &&& final(self)@.resources =~= old(self)@.resources.push(ResourceModel::App)
                    &&& final(self)@.state matches ContextStateModel::Setup { app_init: ai, .. }
                        && ai
                },
                Err(e) => {
                    &&& final(self)@ == old(self)@
                    &&& (e == ContextError::NotInSetup || e == ContextError::AppAlreadyCreated)
                    &&& (e == ContextError::NotInSetup <==> !(old(self)@.state is Setup))
                    &&& (e == ContextError::AppAlreadyCreated <==> (old(
                        self,
                    )@.state matches ContextStateModel::Setup { app_init, .. } && app_init))
                },
            },
    {
        match &self.state {
            ContextState::Setup { app_init, .. } => {
                if *app_init {
                    return Err(ContextError::AppAlreadyCreated);
                }
            },
            _ => {
                return Err(ContextError::NotInSetup);
            },
        }
        let state = &mut self.state;
        match state {
            ContextState::Setup { app_init, .. } => {
                *app_init = true;
            },
            _ => {},
        }
        let h = Handle(self.resources.len());
        let ghost prev = self.resources.deep_view();
        self.resources.push(HostResource::App);
        proof {
            assert(self@.resources =~= prev.push(ResourceModel::App));
        }
        Ok(h)
    }

    /// Declare a new system during setup.
    pub fn system_new(&mut self, name: String, set_counter: &mut usize) -> (r: Result<
        Handle,
        ContextError,
    >)
        requires
            *old(set_counter) < usize::MAX,
        ensures
            match r {
                Ok(h) => {
                    &&& old(self)@.state is Setup
                    &&& h.0 == old(self)@.resources.len()
                    &&& final(self)@.resources =~= old(self)@.resources.push(
                        ResourceModel::System(
                            WasmSystemModel {
                                name: name@,
                                params: Seq::empty(),
                                built: false,
                                id: DynamicSystemId(*old(set_counter)),
                                after: Seq::empty(),
                            },
                        ),
                    )
                    &&& final(self)@.state == old(self)@.state
                    &&& *final(set_counter) == *old(set_counter) + 1
                },
                Err(e) => {
                    &&& final(self)@ == old(self)@
                    &&& *final(set_counter) == *old(set_counter)
                    &&& e == ContextError::NotInSetup
                    &&& !(old(self)@.state is Setup)
                },
            },
    {
        match &self.state {
            ContextState::Setup { .. } => {},
            _ => {
                return Err(ContextError::NotInSetup);
            },
        }
        let id = DynamicSystemId::fresh(set_counter);
        let sys = WasmSystem {
            name,
            params: Vec::new(),
            built: false,
            id,
            after: Vec::new(),
        };
        proof {
            assert(sys@.params =~= Seq::<ParamModel>::empty());
            assert(sys@.after =~= Seq::<usize>::empty());
        }
        let h = Handle(self.resources.len());
        let ghost prev = self.resources.deep_view();
        self.resources.push(HostResource::System(sys));
        proof {
            assert(self@.resources =~= prev.push(self.resources@.last().deep_view()));
        }
        Ok(h)
    }

    /// Append a parameter to a system under construction. Systems can only
    /// be modified in a setup call, through a live system handle, before
    /// they are built.
    pub fn system_add_param(&mut self, system: Handle, param: Param) -> (r: Result<
        (),
        ContextError,
    >)
        ensures
            match r {
                Ok(_) => {
                    &&& old(self)@.state is Setup
                    &&& system.0 < old(self)@.resources.len()
                    &&& old(self)@.resources[system.0 as int] matches ResourceModel::System(s)
                        && !s.built
                    &&& final(self)@.resources =~= old(self)@.resources.update(
                        system.0 as int,
                        ResourceModel::System(
                            WasmSystemModel {
                                params: (old(self)@.resources[
                                    system.0 as int
                                ]->System_0).params.push(param@),
                                ..old(self)@.resources[system.0 as int]->System_0
                            },
                        ),
                    )
                    &&& final(self)@.state == old(self)@.state
                },
                Err(e) => {
                    &&& final(self)@ == old(self)@
                    &&& (e == ContextError::NotInSetup || e == ContextError::DeadHandle || e
                        == ContextError::WrongResource || e == ContextError::AlreadyBuilt)
                    &&& (e == ContextError::NotInSetup <==> !(old(self)@.state is Setup))
                    &&& (e == ContextError::DeadHandle <==> (old(self)@.state is Setup
                        && system.0 >= old(self)@.resources.len()))
                    &&& (e == ContextError::WrongResource <==> (old(self)@.state is Setup
                        && system.0 < old(self)@.resources.len() && !(old(self)@.resources[
                        system.0 as int
                    ] is System)))
                    &&& (e == ContextError::AlreadyBuilt <==> (old(self)@.state is Setup
                        && system.0 < old(self)@.resources.len() && (old(self)@.resources[
                        system.0 as int
                    ] matches ResourceModel::System(s) && s.built)))
                },
            },
    {
        match &self.state {
            ContextState::Setup { .. } => {},
            _ => {
                return Err(ContextError::NotInSetup);
            },
        }
        if system.0 >= self.resources.len() {
            return Err(ContextError::DeadHandle);
        }
        proof {
            assert(self@.resources[system.0 as int] == self.resources@[system.0 as int]@);
        }
        let kind: u8 = match &self.resources[system.0] {
            HostResource::System(sys) => if sys.built {
                1
            } else {
                2
            },
            _ => 0,
        };
        if kind == 0 {
            return Err(ContextError::WrongResource);
        }
        if kind == 1 {
            return Err(ContextError::AlreadyBuilt);
        }
        let ghost prev = self.resources.deep_view();
        let ghost param_model = param@;
        let ghost sys_pre = prev[system.0 as int]->System_0;
        let slot = &mut self.resources[system.0];
        match slot {
            HostResource::System(sys) => {
                sys.params.push(param);
            },
            _ => {},
        }
        proof {
            assert(self@.resources[system.0 as int] == self.resources@[system.0 as int]@);
            assert(self@.resources[system.0 as int]->System_0.params =~= sys_pre.params.push(
                param_model,
            ));
            assert(self@.resources =~= prev.update(
                system.0 as int,
                ResourceModel::System(
                    WasmSystemModel { params: sys_pre.params.push(param_model), ..sys_pre },
                ),
            ));
        }
        Ok(())
    }

    /// Accept a declared system for scheduling: the build-once gate.
    ///
    /// A system resource may be handed to the scheduler exactly once; the
    /// second attempt fails with `AlreadyBuilt` and changes nothing. The
    /// per-access fan-out of an accepted system happens after this gate.
    pub fn system_mark_built(&mut self, system: Handle) -> (r: Result<(), ContextError>)
        ensures
            match r {
                Ok(_) => {
                    &&& old(self)@.state is Setup
                    &&& system.0 < old(self)@.resources.len()
                    &&& old(self)@.resources[system.0 as int] matches ResourceModel::System(s)
                        && !s.built
                    &&& final(self)@.resources =~= old(self)@.resources.update(
                        system.0 as int,
                        ResourceModel::System(
                            WasmSystemModel {
                                built: true,
                                ..old(self)@.resources[system.0 as int]->System_0
                            },
                        ),
                    )
                    &&& final(self)@.state == old(self)@.state
                },
                Err(e) => {
                    &&& final(self)@ == old(self)@
                    &&& (e == ContextError::NotInSetup || e == ContextError::DeadHandle || e
                        == ContextError::WrongResource || e == ContextError::AlreadyBuilt)
                    &&& (e == ContextError::NotInSetup <==> !(old(self)@.state is Setup))
                    &&& (e == ContextError::DeadHandle <==> (old(self)@.state is Setup
                        && system.0 >= old(self)@.resources.len()))
                    &&& (e == ContextError::WrongResource <==> (old(self)@.state is Setup
                        && system.0 < old(self)@.resources.len() && !(old(self)@.resources[
                        system.0 as int
                    ] is System)))
                    &&& (e == ContextError::AlreadyBuilt <==> (old(self)@.state is Setup
                        && system.0 < old(self)@.resources.len() && (old(self)@.resources[
                        system.0 as int
                    ] matches ResourceModel::System(s) && s.built)))
                },
            },
    {
        match &self.state {
            ContextState::Setup { .. } => {},
            _ => {
                return Err(ContextError::NotInSetup);
            },
        }
        if system.0 >= self.resources.len() {
            return Err(ContextError::DeadHandle);
        }
        proof {
            assert(self@.resources[system.0 as int] == self.resources@[system.0 as int]@);
        }
        let kind: u8 = match &self.resources[system.0] {
            HostResource::System(sys) => if sys.built {
                1
            } else {
                2
            },
            _ => 0,
        };
        if kind == 0 {
            return Err(ContextError::WrongResource);
        }
        if kind == 1 {
            return Err(ContextError::AlreadyBuilt);
        }
        let ghost prev = self.resources.deep_view();
        let ghost sys_pre = prev[system.0 as int]->System_0;
        let slot = &mut self.resources[system.0];
        match slot {
            HostResource::System(sys) => {
                sys.built = true;
            },
            _ => {},
        }
        proof {
            assert(self@.resources[system.0 as int] == self.resources@[system.0 as int]@);
            assert(self@.resources =~= prev.update(
                system.0 as int,
                ResourceModel::System(WasmSystemModel { built: true, ..sys_pre }),
            ));
        }
        Ok(())
    }

    /// Read a system back out of the table.
    pub fn system_at<'a>(&'a self, system: Handle) -> (r: Result<&'a WasmSystem, ContextError>)
        ensures
            match r {
                Ok(sys) => system.0 < self@.resources.len() && self@.resources[system.0 as int]
                    == ResourceModel::System(sys@),
                Err(e) => {
                    &&& (e == ContextError::DeadHandle || e == ContextError::WrongResource)
                    &&& (e == ContextError::DeadHandle <==> system.0 >= self@.resources.len())
                    &&& (e == ContextError::WrongResource <==> (system.0
                        < self@.resources.len() && !(self@.resources[system.0 as int]
                        is System)))
                },
            },
    {
        if system.0 >= self.resources.len() {
            return Err(ContextError::DeadHandle);
        }
        proof {
            assert(self@.resources[system.0 as int] == self.resources@[system.0 as int]@);
        }
        match &self.resources[system.0] {
            HostResource::System(sys) => Ok(sys),
            _ => Err(ContextError::WrongResource),
        }
    }
}

/// How many of the first `upto` declared parameters are queries.
pub open spec fn spec_query_count(params: Seq<ParamModel>, upto: int) -> int
    decreases upto,
{
    if upto <= 0 {
        0
    } else {
        spec_query_count(params, upto - 1) + (if params[upto - 1] is Query {
            1int
        } else {
            0int
        })
    }
}

/// The resource backing the `i`-th declared parameter of a system call: a
/// commands handle, or a query handle numbered by its position among the
/// query parameters.
pub open spec fn spec_param_resource(params: Seq<ParamModel>, i: int) -> ResourceModel {
    match params[i] {
        ParamModel::Commands => ResourceModel::Commands,
        ParamModel::Query(_) => ResourceModel::Query(
            QueryId(spec_query_count(params, i) as usize),
        ),
    }
}

impl HostContext {
    /// Build the guest-visible parameter handles for one system call: one
    /// fresh handle per declared parameter, in declaration order, each
    /// query handle numbered by its position among the query parameters.
    pub fn initialize_params(&mut self, params: &Vec<Param>) -> (r: Result<
        Vec<Handle>,
        ContextError,
    >)
        ensures
            match r {
                Ok(handles) => {
                    &&& old(self)@.state is RunSystem
                    &&& final(self)@.state == old(self)@.state
                    &&& handles@.len() == params@.len()
                    &&& forall|i: int|
                        0 <= i < handles@.len() ==> (#[trigger] handles@[i]).0
                            == old(self)@.resources.len() + i
                    &&& final(self)@.resources =~= old(self)@.resources + Seq::new(
                        params@.len() as nat,
                        |i: int| spec_param_resource(params.deep_view(), i),
                    )
                },
                Err(e) => {
                    &&& final(self)@ == old(self)@
                    &&& e == ContextError::NotInSystem
                    &&& !(old(self)@.state is RunSystem)
                },
            },
    {
        match &self.state {
            ContextState::RunSystem { .. } => {},
            _ => {
                return Err(ContextError::NotInSystem);
            },
        }
        let mut handles: Vec<Handle> = Vec::new();
        let mut qcount: usize = 0;
        let n = params.len();
        let mut i: usize = 0;
        while i < n
            invariant
                0 <= i <= n,
                n == params@.len(),
                self@.state == old(self)@.state,
                old(self)@.state is RunSystem,
                qcount <= i,
                qcount as int == spec_query_count(params.deep_view(), i as int),
                handles@.len() == i,
                forall|k: int|
                    0 <= k < i ==> (#[trigger] handles@[k]).0 == old(self)@.resources.len() + k,
                self@.resources =~= old(self)@.resources + Seq::new(
                    i as nat,
                    |k: int| spec_param_resource(params.deep_view(), k),
                ),
            decreases n - i,
        {
            let h = Handle(self.resources.len());
            let ghost prev = self.resources.deep_view();
            match &params[i] {
                Param::Commands => {
                    self.resources.push(HostResource::Commands);
                },
                Param::Query(_) => {
                    self.resources.push(HostResource::Query(QueryId(qcount)));
                    qcount = qcount + 1;
                },
            }
            handles.push(h);
            proof {
                assert(params.deep_view()[i as int] == params@[i as int]@);
                assert(self@.resources =~= prev.push(
                    spec_param_resource(params.deep_view(), i as int),
                ));
                assert(self@.resources =~= old(self)@.resources + Seq::new(
                    (i + 1) as nat,
                    |k: int| spec_param_resource(params.deep_view(), k),
                ));
            }
            i = i + 1;
        }
        Ok(handles)
    }
}

/// The guest-visible app resource: a setup call creates exactly one and
/// registers its systems through it.
pub struct App;

/// The guest-visible commands resource: a handle to the deferred command
/// buffer of the running system's call.
pub struct Commands;

} // verus!
