//! Dynamic system registration and the scheduler bridge.
//!
//! During setup a mod declares named systems with their parameters and
//! ordering edges. Each declared system is compiled into one scheduler unit
//! per access the mod currently holds, tagged with the bulk system sets and
//! carrying the mod's version tick captured at registration time. A unit
//! whose requested schedule was never enabled for that access is skipped.

use vstd::prelude::*;
use vstd::string::*;

use crate::access::ModAccess;
use crate::mods::ModSystemSet;
use crate::query::{Param, ParamModel, QueryFor};
use crate::schedule::{
    ModSchedule, ModScheduleModel, ModSchedules, ScheduleRequest, spec_evaluate,
};

verus! {

/// The set identifier of one dynamically added system.
///
/// The underlying scheduler exposes no stable handle for an anonymously
/// added unit, so every system carries one fresh set all to itself, used
/// for ordering edges between sibling systems.
#[derive(Clone, Copy, Debug, PartialEq, Eq, Structural)]
pub struct DynamicSystemId(pub usize);

impl DynamicSystemId {
    /// A fresh identifier from the world-wide counter.
    pub fn fresh(counter: &mut usize) -> (r: DynamicSystemId)
        requires
            *old(counter) < usize::MAX,
        ensures
            r.0 == *old(counter),
            *final(counter) == *old(counter) + 1,
    {
        let id = DynamicSystemId(*counter);
        *counter = *counter + 1;
        id
    }
}

/// A system as a mod declares it during setup.
pub struct WasmSystem {
    /// The guest entry point invoked each tick.
    pub name: String,
    /// The declared parameters, in order.
    pub params: Vec<Param>,
    /// Set by the context's build-once gate when the system is handed to
    /// the scheduler; a second hand-over fails there.
    pub built: bool,
    /// The system's own scheduling set.
    pub id: DynamicSystemId,
    /// Sets of sibling systems this one must run after.
    pub after: Vec<usize>,
}

/// Mathematical model of a `WasmSystem`.
pub ghost struct WasmSystemModel {
    pub name: Seq<char>,
    pub params: Seq<ParamModel>,
    pub built: bool,
    pub id: DynamicSystemId,
    pub after: Seq<usize>,
}

impl View for WasmSystem {
    type V = WasmSystemModel;

    open spec fn view(&self) -> WasmSystemModel {
        WasmSystemModel {
            name: self.name@,
            params: self.params.deep_view(),
            built: self.built,
            id: self.id,
            after: self.after@,
        }
    }
}

impl DeepView for WasmSystem {
    type V = WasmSystemModel;

    open spec fn deep_view(&self) -> WasmSystemModel {
        self.view()
    }
}

/// One compiled scheduler unit: a mod system bound to one access domain
/// and one schedule, with its captured version tick.
pub struct SchedulerUnit {
    pub mod_name: String,
    pub system_name: String,
    pub mod_id: usize,
    pub access: ModAccess,
    pub schedule: ModSchedule,
    pub set_id: DynamicSystemId,
    pub after: Vec<usize>,
    pub asset_id: u64,
    pub captured_version: u64,
    pub params: Vec<Param>,
    pub enabled: bool,
}

/// Mathematical model of a `SchedulerUnit`.
pub ghost struct UnitModel {
    pub mod_name: Seq<char>,
    pub system_name: Seq<char>,
    pub mod_id: usize,
    pub access: ModAccess,
    pub schedule: ModScheduleModel,
    pub set_id: DynamicSystemId,
    pub after: Seq<usize>,
    pub asset_id: u64,
    pub captured_version: u64,
    pub params: Seq<ParamModel>,
    pub enabled: bool,
}

impl View for SchedulerUnit {
    type V = UnitModel;

    open spec fn view(&self) -> UnitModel {
        UnitModel {
            mod_name: self.mod_name@,
            system_name: self.system_name@,
            mod_id: self.mod_id,
            access: self.access,
            schedule: self.schedule@,
            set_id: self.set_id,
            after: self.after@,
            asset_id: self.asset_id,
            captured_version: self.captured_version,
            params: self.params.deep_view(),
            enabled: self.enabled,
        }
    }
}

impl DeepView for SchedulerUnit {
    type V = UnitModel;

    open spec fn deep_view(&self) -> UnitModel {
        self.view()
    }
}

/// True when a unit belongs to a bulk system set.
pub open spec fn spec_in_set(u: UnitModel, set: ModSystemSet) -> bool {
    match set {
        ModSystemSet::All => true,
        ModSystemSet::Mod(mod_id) => u.mod_id == mod_id,
        ModSystemSet::Access(access) => u.access == access,
    }
}

/// The scheduler: the dynamically added units.
pub struct Scheduler {
    pub units: Vec<SchedulerUnit>,
}

impl Scheduler {
    /// An empty scheduler.
    pub fn new() -> (r: Scheduler)
        ensures
            r.units@.len() == 0,
    {
        Scheduler { units: Vec::new() }
    }
}

fn duplicate_terms(terms: &Vec<QueryFor>) -> (r: Vec<QueryFor>)
    ensures
        r.deep_view() == terms.deep_view(),
{
    let mut out: Vec<QueryFor> = Vec::new();
    let mut i: usize = 0;
    while i < terms.len()
        invariant
            0 <= i <= terms@.len(),
            out.deep_view().len() == i,
            forall|k: int| 0 <= k < i ==> out.deep_view()[k] == terms.deep_view()[k],
        decreases terms@.len() - i,
    {
        let ghost prev = out.deep_view();
        let t = match &terms[i] {
            QueryFor::Ref(p) => QueryFor::Ref(p.clone()),
            QueryFor::Mut(p) => QueryFor::Mut(p.clone()),
            QueryFor::With(p) => QueryFor::With(p.clone()),
            QueryFor::Without(p) => QueryFor::Without(p.clone()),
        };
        out.push(t);
        proof {
            assert(out.deep_view() =~= prev.push(out@.last().deep_view()));
        }
        i = i + 1;
    }
    proof {
        assert(out.deep_view() =~= terms.deep_view());
    }
    out
}

/// An exact copy of a parameter list.
pub fn duplicate_params(params: &Vec<Param>) -> (r: Vec<Param>)
    ensures
        r.deep_view() == params.deep_view(),
{
    let mut out: Vec<Param> = Vec::new();
    let mut i: usize = 0;
    while i < params.len()
        invariant
            0 <= i <= params@.len(),
            out.deep_view().len() == i,
            forall|k: int| 0 <= k < i ==> out.deep_view()[k] == params.deep_view()[k],
        decreases params@.len() - i,
    {
        let ghost prev = out.deep_view();
        let p = match &params[i] {
            Param::Commands => Param::Commands,
            Param::Query(terms) => Param::Query(duplicate_terms(terms)),
        };
        out.push(p);
        proof {
            assert(out.deep_view() =~= prev.push(out@.last().deep_view()));
        }
        i = i + 1;
    }
    proof {
        assert(out.deep_view() =~= params.deep_view());
    }
    out
}

/// The unit compiled for one system under one access and schedule.
pub open spec fn spec_unit_of(
    sys: WasmSystemModel,
    mod_name: Seq<char>,
    mod_id: usize,
    asset_id: u64,
    captured_version: u64,
    access: ModAccess,
    schedule: ModScheduleModel,
) -> UnitModel {
    UnitModel {
        mod_name: mod_name,
        system_name: sys.name,
        mod_id: mod_id,
        access: access,
        schedule: schedule,
        set_id: sys.id,
        after: sys.after,
        asset_id: asset_id,
        captured_version: captured_version,
        params: sys.params,
        enabled: true,
    }
}

/// The units compiled for one batch of systems under one access, given the
/// schedule the batch's request evaluated to.
pub open spec fn spec_units_for_batch(
    systems: Seq<WasmSystemModel>,
    mod_name: Seq<char>,
    mod_id: usize,
    asset_id: u64,
    captured_version: u64,
    access: ModAccess,
    schedule: ModScheduleModel,
) -> Seq<UnitModel> {
    Seq::new(
        systems.len(),
        |k: int|
            spec_unit_of(
                systems[k],
                mod_name,
                mod_id,
                asset_id,
                captured_version,
                access,
                schedule,
            ),
    )
}

impl Scheduler {
    /// Compile one declared system into a unit under the given access and
    /// schedule and add it to the scheduler.
    ///
    /// The unit joins the all-mods set, the mod's own set and the access's
    /// set by construction of its fields; it captures the mod's current
    /// version tick and starts enabled.
    pub fn add_system(
        &mut self,
        sys: &WasmSystem,
        mod_name: &str,
        mod_id: usize,
        asset_id: u64,
        captured_version: u64,
        access: ModAccess,
        schedule: ModSchedule,
    )
        ensures
            final(self).units.deep_view() =~= old(self).units.deep_view().push(
                spec_unit_of(
                    sys@,
                    mod_name@,
                    mod_id,
                    asset_id,
                    captured_version,
                    access,
                    schedule@,
                ),
            ),
    {
        let mut after: Vec<usize> = Vec::new();
        let mut i: usize = 0;
        while i < sys.after.len()
            invariant
                0 <= i <= sys.after@.len(),
                after@ =~= sys.after@.take(i as int),
            decreases sys.after@.len() - i,
        {
            after.push(sys.after[i]);
            proof {
                assert(after@ =~= sys.after@.take(i + 1));
            }
            i = i + 1;
        }
        proof {
            assert(after@ =~= sys.after@);
        }
        let unit = SchedulerUnit {
            mod_name: String::from_str(mod_name),
            system_name: sys.name.clone(),
            mod_id,
            access,
            schedule,
            set_id: sys.id,
            after,
            asset_id,
            captured_version,
            params: duplicate_params(&sys.params),
            enabled: true,
        };
        let ghost prev = self.units.deep_view();
        self.units.push(unit);
        proof {
            assert(self.units.deep_view() =~= prev.push(self.units@.last().deep_view()));
        }
    }

    /// Register one batch of systems under one access: the batch's schedule
    /// request is evaluated against the access's enabled schedules, and
    /// when it resolves, every system of the batch is compiled into one
    /// unit; a request for a schedule that was never enabled adds nothing.
    ///
    /// Systems reach the scheduler through the execution context's
    /// build-once gate, which marks each one built when the guest first
    /// hands it over; the same batch then fans out once per access the mod
    /// holds.
    pub fn add_batch(
        &mut self,
        systems: &Vec<WasmSystem>,
        request: &ScheduleRequest,
        mod_schedules: &ModSchedules,
        mod_name: &str,
        mod_id: usize,
        asset_id: u64,
        captured_version: u64,
        access: ModAccess,
    )
        ensures
            final(self).units.deep_view() =~= old(self).units.deep_view() + (
            match spec_evaluate(mod_schedules@, request@) {
                Some(schedule) => spec_units_for_batch(
                    systems.deep_view(),
                    mod_name@,
                    mod_id,
                    asset_id,
                    captured_version,
                    access,
                    schedule,
                ),
                None => Seq::<UnitModel>::empty(),
            }),
    {
        let schedule = match mod_schedules.evaluate(request) {
            Some(s) => s,
            None => {
                proof {
                    assert(self.units.deep_view() =~= old(self).units.deep_view()
                        + Seq::<UnitModel>::empty());
                }
                return ;
            },
        };
        let ghost sched_model = schedule@;
        let ghost base = self.units.deep_view();
        let mut k: usize = 0;
        while k < systems.len()
            invariant
                0 <= k <= systems@.len(),
                schedule@ == sched_model,
                self.units.deep_view() =~= base + spec_units_for_batch(
                    systems.deep_view(),
                    mod_name@,
                    mod_id,
                    asset_id,
                    captured_version,
                    access,
                    sched_model,
                ).take(k as int),
            decreases systems@.len() - k,
        {
            let sched_copy = schedule.duplicate();
            proof {
                assert(sched_copy@ == sched_model);
            }
            let ghost pre = self.units.deep_view();
            self.add_system(
                &systems[k],
                mod_name,
                mod_id,
                asset_id,
                captured_version,
                access,
                sched_copy,
            );
            proof {
                let all = spec_units_for_batch(
                    systems.deep_view(),
                    mod_name@,
                    mod_id,
                    asset_id,
                    captured_version,
                    access,
                    sched_model,
                );
                assert(systems[k as int]@ == systems.deep_view()[k as int]);
                assert(all[k as int] == spec_unit_of(
                    systems.deep_view()[k as int],
                    mod_name@,
                    mod_id,
                    asset_id,
                    captured_version,
                    access,
                    sched_model,
                ));
                assert(self.units.deep_view() =~= base + all.take(k + 1));
            }
            k = k + 1;
        }
        proof {
            let all = spec_units_for_batch(
                systems.deep_view(),
                mod_name@,
                mod_id,
                asset_id,
                captured_version,
                access,
                sched_model,
            );
            assert(all.take(systems@.len() as int) =~= all);
        }
    }
}

} // verus!
