use wasvy::access::ModAccess;
use wasvy::asset::{run_decision, ModAsset, RunDecision};
use wasvy::cleanup::{disable_system_set, disable_system_sets, CleanupQueue, DisableSystemSet};
use wasvy::mods::{Mod, ModSystemSet};
use wasvy::query::{Param, QueryFor};
use wasvy::runner::{ContextError, HostContext};
use wasvy::schedule::{ModSchedule, ModSchedules, ScheduleRequest};
use wasvy::setup::{forget_ran, mark_ran, select_setup, ModEntry, RanWith};
use wasvy::system::{DynamicSystemId, Scheduler, WasmSystem};

fn default_schedules() -> ModSchedules {
    ModSchedules::default()
}

fn declared_system(name: &str, id: usize) -> WasmSystem {
    WasmSystem {
        name: name.to_string(),
        params: vec![Param::Commands],
        built: false,
        id: DynamicSystemId(id),
        after: Vec::new(),
    }
}

#[test]
fn schedule_requests_resolve_against_enabled_schedules() {
    let schedules = default_schedules();
    assert_eq!(
        schedules.evaluate(&ScheduleRequest::Update),
        Some(ModSchedule::Update)
    );

    let empty = ModSchedules::empty();
    assert_eq!(empty.evaluate(&ScheduleRequest::Update), None);

    let mut custom = ModSchedules::empty();
    custom.push(ModSchedule::Custom {
        name: "combat".to_string(),
    });
    assert_eq!(
        custom.evaluate(&ScheduleRequest::Custom("combat".to_string())),
        Some(ModSchedule::Custom {
            name: "combat".to_string()
        })
    );
    assert_eq!(
        custom.evaluate(&ScheduleRequest::Custom("physics".to_string())),
        None
    );
}

#[test]
fn add_batch_skips_disabled_schedules() {
    let mut scheduler = Scheduler::new();
    let systems = vec![declared_system("tick", 0), declared_system("tock", 1)];

    scheduler.add_batch(
        &systems,
        &ScheduleRequest::Update,
        &ModSchedules::empty(),
        "my_mod",
        3,
        42,
        7,
        ModAccess::World,
    );
    assert_eq!(scheduler.units.len(), 0);

    scheduler.add_batch(
        &systems,
        &ScheduleRequest::Update,
        &default_schedules(),
        "my_mod",
        3,
        42,
        7,
        ModAccess::World,
    );
    assert_eq!(scheduler.units.len(), 2);
    assert_eq!(scheduler.units[0].system_name, "tick");
    assert_eq!(scheduler.units[0].captured_version, 7);
    assert_eq!(scheduler.units[0].access, ModAccess::World);
    assert!(scheduler.units[0].enabled);
    assert_eq!(scheduler.units[1].set_id, DynamicSystemId(1));
}

#[test]
fn stale_systems_are_silent_noops() {
    let mut asset = ModAsset::new(11);
    assert_eq!(asset.version(), None);
    let v1 = asset.assign_version(5);
    assert_eq!(v1, 5);
    // A second setup of the same asset keeps the same version.
    assert_eq!(asset.assign_version(9), 5);

    // Captured under the live version: runs.
    assert_eq!(run_decision(Some(&asset), v1), RunDecision::Run);

    // A reload replaces the asset; the new version differs, the old unit skips.
    let mut reloaded = ModAsset::new(11);
    let v2 = reloaded.assign_version(9);
    assert!(v2 > v1);
    assert_eq!(run_decision(Some(&reloaded), v1), RunDecision::Skip);
    assert_eq!(run_decision(Some(&reloaded), v2), RunDecision::Run);

    // An unloaded mod also skips.
    assert_eq!(run_decision(None, v1), RunDecision::Skip);
    let unversioned = ModAsset::new(11);
    assert_eq!(run_decision(Some(&unversioned), v1), RunDecision::Skip);
}

#[test]
fn disabling_a_domain_twice_removes_units_exactly_once() {
    let mut scheduler = Scheduler::new();
    let systems = vec![declared_system("tick", 0), declared_system("tock", 1)];
    scheduler.add_batch(
        &systems,
        &ScheduleRequest::Update,
        &default_schedules(),
        "my_mod",
        3,
        42,
        7,
        ModAccess::Sandbox(5),
    );
    scheduler.add_batch(
        &systems,
        &ScheduleRequest::Update,
        &default_schedules(),
        "my_mod",
        3,
        42,
        7,
        ModAccess::World,
    );

    let record = DisableSystemSet {
        set: ModSystemSet::new_sandboxed(5),
        schedules: default_schedules(),
    };
    let removed_first = disable_system_set(&mut scheduler, &record);
    assert_eq!(removed_first, 2);
    assert!(!scheduler.units[0].enabled);
    assert!(!scheduler.units[1].enabled);
    assert!(scheduler.units[2].enabled);

    let record_again = DisableSystemSet {
        set: ModSystemSet::new_sandboxed(5),
        schedules: default_schedules(),
    };
    let removed_second = disable_system_set(&mut scheduler, &record_again);
    assert_eq!(removed_second, 0);
    assert!(scheduler.units[2].enabled);
}

#[test]
fn cleanup_pass_applies_deferred_records() {
    let mut scheduler = Scheduler::new();
    let systems = vec![declared_system("tick", 0)];
    scheduler.add_batch(
        &systems,
        &ScheduleRequest::Update,
        &default_schedules(),
        "my_mod",
        3,
        42,
        7,
        ModAccess::World,
    );

    let mut queue = CleanupQueue::new();
    // A record over no schedules can never match and is dropped.
    queue.queue_mod_teardown(3, ModSchedules::empty());
    assert_eq!(queue.pending.len(), 0);

    queue.queue_mod_teardown(3, default_schedules());
    assert_eq!(queue.pending.len(), 1);
    assert!(scheduler.units[0].enabled);

    disable_system_sets(&mut scheduler, &mut queue);
    assert!(!scheduler.units[0].enabled);
    assert_eq!(queue.pending.len(), 0);
}

#[test]
fn mod_access_set_semantics() {
    let mut m = Mod::new(42);
    assert_eq!(m.asset(), 42);
    assert!(m.enable_access(ModAccess::World));
    assert!(m.enable_access(ModAccess::Sandbox(1)));
    assert!(!m.enable_access(ModAccess::World), "already granted");
    assert_eq!(m.accesses().len(), 2);

    assert!(m.disable_access(&ModAccess::World));
    assert!(!m.disable_access(&ModAccess::World), "already gone");
    assert_eq!(m.accesses().len(), 1);
    assert_eq!(m.accesses()[0], ModAccess::Sandbox(1));
}

#[test]
fn setup_runs_once_per_mod_access_and_version() {
    let mods = vec![ModEntry {
        mod_id: 0,
        asset_id: 42,
        changed: true,
        accesses: vec![ModAccess::World, ModAccess::Sandbox(1)],
    }];
    let mut ran: Vec<RanWith> = Vec::new();

    // First pass: both accesses need setup.
    let selected = select_setup(&mods, &Vec::new(), &ran);
    assert_eq!(selected.len(), 1);
    assert_eq!(selected[0].mod_id, 0);
    assert_eq!(selected[0].accesses.len(), 2);
    mark_ran(&mut ran, 0, &selected[0].accesses);

    // Second pass without changes: nothing left to set up.
    let unchanged = vec![ModEntry {
        mod_id: 0,
        asset_id: 42,
        changed: true,
        accesses: vec![ModAccess::World, ModAccess::Sandbox(1)],
    }];
    assert!(select_setup(&unchanged, &Vec::new(), &ran).is_empty());

    // A hot reload forgets the pairs: both accesses run setup again.
    forget_ran(&mut ran, &unchanged, &vec![42]);
    let after_reload = select_setup(&unchanged, &vec![42], &ran);
    assert_eq!(after_reload.len(), 1);
    assert_eq!(after_reload[0].accesses.len(), 2);
}

#[test]
fn context_gates_host_calls_by_state() {
    let mut ctx = HostContext::new();
    let mut counter: usize = 0;

    // Outside any call, setup-only operations fail loudly.
    assert_eq!(ctx.app_new().unwrap_err(), ContextError::NotInSetup);

    ctx.begin_setup(0, "my_mod".to_string(), 42, 7);
    let app = ctx.app_new().expect("app handle");
    let _ = app;
    assert_eq!(ctx.app_new().unwrap_err(), ContextError::AppAlreadyCreated);

    let sys = ctx.system_new("tick".to_string(), &mut counter).expect("system");
    ctx.system_add_param(sys, Param::Commands).expect("param");
    let declared = ctx.system_at(sys).expect("system back");
    assert_eq!(declared.name, "tick");
    assert_eq!(declared.params.len(), 1);

    // The build-once gate: a system is handed to the scheduler exactly once.
    ctx.system_mark_built(sys).expect("first build");
    assert_eq!(
        ctx.system_mark_built(sys).unwrap_err(),
        ContextError::AlreadyBuilt
    );
    assert_eq!(
        ctx.system_add_param(sys, Param::Commands).unwrap_err(),
        ContextError::AlreadyBuilt
    );
    assert!(ctx.system_at(sys).expect("system back").built);

    // Ending the call kills every handle of the call.
    ctx.end();
    assert_eq!(
        ctx.system_add_param(sys, Param::Commands).unwrap_err(),
        ContextError::NotInSetup
    );
    // A handle from a previous call is dead in the next one.
    ctx.begin_setup(0, "my_mod".to_string(), 42, 8);
    assert_eq!(
        ctx.system_add_param(sys, Param::Commands).unwrap_err(),
        ContextError::DeadHandle
    );
    ctx.end();

    // System registration is a setup-only operation.
    ctx.begin_run_system(ModAccess::World);
    let mut counter2: usize = 0;
    assert_eq!(
        ctx.system_new("late".to_string(), &mut counter2).unwrap_err(),
        ContextError::NotInSetup
    );
}

#[test]
fn run_calls_get_one_handle_per_declared_parameter() {
    let mut ctx = HostContext::new();
    let params = vec![
        Param::Commands,
        Param::Query(vec![QueryFor::Ref("game::Health".to_string())]),
        Param::Query(vec![QueryFor::With("game::Marker".to_string())]),
    ];

    // Parameter handles exist only while a system call is in flight.
    assert_eq!(
        ctx.initialize_params(&params).unwrap_err(),
        ContextError::NotInSystem
    );

    ctx.begin_run_system(ModAccess::World);
    let handles = ctx.initialize_params(&params).expect("handles");
    assert_eq!(handles.len(), 3);
    assert_eq!(handles[0].0 + 1, handles[1].0);
    assert_eq!(handles[1].0 + 1, handles[2].0);
    ctx.end();
}
