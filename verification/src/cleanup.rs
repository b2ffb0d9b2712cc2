//! Deferred cleanup of scheduled mod systems.
//!
//! Removing a sandbox or a mod must not mutate the live scheduler in the
//! middle of an execution pass, so teardown enqueues a disable record; a
//! dedicated pass later applies every pending record. Disabling tolerates
//! double removal: a unit is taken out of service exactly once, and a
//! second identical record changes nothing.

use vstd::prelude::*;

use crate::access::ModAccess;
use crate::mods::ModSystemSet;
use crate::schedule::{ModScheduleModel, ModSchedules};
use crate::system::{Scheduler, UnitModel, spec_in_set};

verus! {

/// A deferred request that a system set stop running in the given
/// schedules.
pub struct DisableSystemSet {
    pub set: ModSystemSet,
    pub schedules: ModSchedules,
}

/// Mathematical model of a `DisableSystemSet`.
pub ghost struct DisableModel {
    pub set: ModSystemSet,
    pub schedules: Seq<ModScheduleModel>,
}

impl View for DisableSystemSet {
    type V = DisableModel;

    open spec fn view(&self) -> DisableModel {
        DisableModel { set: self.set, schedules: self.schedules@ }
    }
}

impl DeepView for DisableSystemSet {
    type V = DisableModel;

    open spec fn deep_view(&self) -> DisableModel {
        self.view()
    }
}

/// The pending disable records, applied by the next cleanup pass.
pub struct CleanupQueue {
    pub pending: Vec<DisableSystemSet>,
}

impl CleanupQueue {
    /// An empty queue.
    pub fn new() -> (r: CleanupQueue)
        ensures
            r.pending@.len() == 0,
    {
        CleanupQueue { pending: Vec::new() }
    }

    /// Enqueue a disable record. A record over no schedules can never
    /// match a unit and is dropped outright.
    pub fn queue(&mut self, record: DisableSystemSet)
        ensures
            final(self).pending.deep_view() =~= (if record.schedules@.len() == 0 {
                old(self).pending.deep_view()
            } else {
                old(self).pending.deep_view().push(record@)
            }),
    {
        if record.schedules.0.len() > 0 {
            let ghost prev = self.pending.deep_view();
            self.pending.push(record);
            proof {
                assert(self.pending.deep_view() =~= prev.push(
                    self.pending@.last().deep_view(),
                ));
            }
        }
    }

    /// Enqueue the teardown of a dissolved sandbox: every unit running in
    /// that sandbox is to be disabled in each of its schedules.
    pub fn queue_sandbox_teardown(&mut self, sandbox: usize, schedules: ModSchedules)
        ensures
            final(self).pending.deep_view() =~= (if schedules@.len() == 0 {
                old(self).pending.deep_view()
            } else {
                old(self).pending.deep_view().push(
                    DisableModel {
                        set: ModSystemSet::Access(ModAccess::Sandbox(sandbox)),
                        schedules: schedules@,
                    },
                )
            }),
    {
        self.queue(
            DisableSystemSet { set: ModSystemSet::Access(ModAccess::Sandbox(sandbox)), schedules },
        );
    }

    /// Enqueue the teardown of a despawned mod: every unit of that mod is
    /// to be disabled in each of its schedules.
    pub fn queue_mod_teardown(&mut self, mod_id: usize, schedules: ModSchedules)
        ensures
            final(self).pending.deep_view() =~= (if schedules@.len() == 0 {
                old(self).pending.deep_view()
            } else {
                old(self).pending.deep_view().push(
                    DisableModel { set: ModSystemSet::Mod(mod_id), schedules: schedules@ },
                )
            }),
    {
        self.queue(DisableSystemSet { set: ModSystemSet::Mod(mod_id), schedules });
    }
}

/// One unit after a disable record: taken out of service when it belongs
/// to the record's set and runs in one of the record's schedules.
pub open spec fn spec_disable_unit(
    u: UnitModel,
    set: ModSystemSet,
    schedules: Seq<ModScheduleModel>,
) -> UnitModel {
    if spec_in_set(u, set) && schedules.contains(u.schedule) {
        UnitModel { enabled: false, ..u }
    } else {
        u
    }
}

/// All units after a disable record.
pub open spec fn spec_disable_units(
    units: Seq<UnitModel>,
    set: ModSystemSet,
    schedules: Seq<ModScheduleModel>,
) -> Seq<UnitModel> {
    Seq::new(units.len(), |i: int| spec_disable_unit(units[i], set, schedules))
}

/// How many of the first `upto` units a disable record takes out of
/// service: the enabled ones it matches.
pub open spec fn spec_removed_count(
    units: Seq<UnitModel>,
    set: ModSystemSet,
    schedules: Seq<ModScheduleModel>,
    upto: int,
) -> int
    decreases upto,
{
    if upto <= 0 {
        0
    } else {
        spec_removed_count(units, set, schedules, upto - 1) + (
        if units[upto - 1].enabled && spec_in_set(units[upto - 1], set) && schedules.contains(
            units[upto - 1].schedule,
        ) {
            1int
        } else {
            0int
        })
    }
}

/// Apply one disable record to the scheduler. Returns how many units were
/// newly taken out of service.
pub fn disable_system_set(scheduler: &mut Scheduler, record: &DisableSystemSet) -> (removed:
    usize)
    ensures
        final(scheduler).units.deep_view() =~= spec_disable_units(
            old(scheduler).units.deep_view(),
            record.set,
            record.schedules@,
        ),
        removed as int == spec_removed_count(
            old(scheduler).units.deep_view(),
            record.set,
            record.schedules@,
            old(scheduler).units.deep_view().len() as int,
        ),
{
    let n = scheduler.units.len();
    let mut removed: usize = 0;
    let mut i: usize = 0;
    while i < n
        invariant
            0 <= i <= n,
            n == scheduler.units@.len(),
            scheduler.units@.len() == old(scheduler).units@.len(),
            removed <= i,
            removed as int == spec_removed_count(
                old(scheduler).units.deep_view(),
                record.set,
                record.schedules@,
                i as int,
            ),
            forall|k: int|
                0 <= k < i ==> #[trigger] scheduler.units.deep_view()[k] == spec_disable_unit(
                    old(scheduler).units.deep_view()[k],
                    record.set,
                    record.schedules@,
                ),
            forall|k: int|
                i <= k < n ==> #[trigger] scheduler.units.deep_view()[k] == old(
                    scheduler,
                ).units.deep_view()[k],
        decreases n - i,
    {
        let ghost pre = scheduler.units.deep_view();
        let in_set = match record.set {
            ModSystemSet::All => true,
            ModSystemSet::Mod(mod_id) => scheduler.units[i].mod_id == mod_id,
            ModSystemSet::Access(access) => scheduler.units[i].access == access,
        };
        let in_schedule = record.schedules.contains(&scheduler.units[i].schedule);
        proof {
            assert(scheduler.units@[i as int]@ == pre[i as int]);
        }
        if in_set && in_schedule {
            if scheduler.units[i].enabled {
                removed = removed + 1;
            }
            let unit = &mut scheduler.units[i];
            unit.enabled = false;
            proof {
                assert(scheduler.units.deep_view() =~= pre.update(
                    i as int,
                    UnitModel { enabled: false, ..pre[i as int] },
                ));
            }
        }
        i = i + 1;
    }
    proof {
        assert(scheduler.units.deep_view() =~= spec_disable_units(
            old(scheduler).units.deep_view(),
            record.set,
            record.schedules@,
        ));
    }
    removed
}

/// The units after a whole queue of disable records, applied in order.
pub open spec fn spec_apply_all(
    units: Seq<UnitModel>,
    records: Seq<DisableModel>,
) -> Seq<UnitModel>
    decreases records.len(),
{
    if records.len() == 0 {
        units
    } else {
        spec_apply_all(
            spec_disable_units(units, records[0].set, records[0].schedules),
            records.drop_first(),
        )
    }
}

/// The cleanup pass: apply every pending disable record, in order, and
/// leave the queue empty.
pub fn disable_system_sets(scheduler: &mut Scheduler, queue: &mut CleanupQueue)
    ensures
        final(scheduler).units.deep_view() =~= spec_apply_all(
            old(scheduler).units.deep_view(),
            old(queue).pending.deep_view(),
        ),
        final(queue).pending@.len() == 0,
{
    let m = queue.pending.len();
    let mut j: usize = 0;
    proof {
        assert(old(queue).pending.deep_view().skip(0) =~= old(queue).pending.deep_view());
    }
    while j < m
        invariant
            0 <= j <= m,
            m == queue.pending@.len(),
            queue.pending.deep_view() == old(queue).pending.deep_view(),
            spec_apply_all(
                old(scheduler).units.deep_view(),
                old(queue).pending.deep_view(),
            ) == spec_apply_all(
                scheduler.units.deep_view(),
                old(queue).pending.deep_view().skip(j as int),
            ),
        decreases m - j,
    {
        proof {
            let recs = old(queue).pending.deep_view().skip(j as int);
            assert(recs[0] == old(queue).pending.deep_view()[j as int]);
            assert(recs.drop_first() =~= old(queue).pending.deep_view().skip(j + 1));
            assert(queue.pending@[j as int]@ == old(queue).pending.deep_view()[j as int]);
        }
        let _ = disable_system_set(scheduler, &queue.pending[j]);
        j = j + 1;
    }
    proof {
        assert(old(queue).pending.deep_view().skip(m as int) =~= Seq::<DisableModel>::empty());
    }
    queue.pending.clear();
}

/// Idempotent teardown: applying the same disable record twice leaves the
/// scheduler exactly as one application does, and the second application
/// takes no unit out of service.
pub proof fn lemma_disable_idempotent(
    units: Seq<UnitModel>,
    set: ModSystemSet,
    schedules: Seq<ModScheduleModel>,
)
    ensures
        spec_disable_units(spec_disable_units(units, set, schedules), set, schedules)
            =~= spec_disable_units(units, set, schedules),
        spec_removed_count(
            spec_disable_units(units, set, schedules),
            set,
            schedules,
            units.len() as int,
        ) == 0,
{
    let once = spec_disable_units(units, set, schedules);
    assert forall|i: int| 0 <= i < once.len() implies spec_disable_unit(once[i], set, schedules)
        == once[i] by {}
    lemma_removed_count_zero(once, set, schedules, units.len() as int);
}

proof fn lemma_removed_count_zero(
    units: Seq<UnitModel>,
    set: ModSystemSet,
    schedules: Seq<ModScheduleModel>,
    upto: int,
)
    requires
        upto <= units.len(),
        forall|i: int|
            0 <= i < units.len() ==> !((#[trigger] units[i]).enabled && spec_in_set(
                units[i],
                set,
            ) && schedules.contains(units[i].schedule)),
    ensures
        spec_removed_count(units, set, schedules, upto) == 0,
    decreases upto,
{
    if upto > 0 {
        lemma_removed_count_zero(units, set, schedules, upto - 1);
    }
}

} // verus!
