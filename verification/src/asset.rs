//! Loaded mod binaries and their version ticks.
//!
//! A mod asset is the pre-instantiation template of a loaded binary plus a
//! version tick. The tick is `None` until the first successful setup
//! assigns the current change tick; a reload replaces the asset with a
//! fresh one, so the next setup assigns a strictly later tick. A scheduled
//! unit captures the tick it was registered under and silently skips once
//! the live tick differs.

use vstd::prelude::*;

verus! {

/// A loaded mod binary: an opaque handle to its instantiation template and
/// the version tick assigned at first successful setup.
pub struct ModAsset {
    /// Host-side handle to the pre-instantiated binary template.
    pub template: u64,
    /// The version tick, `None` until the first successful setup.
    pub version: Option<u64>,
}

impl ModAsset {
    /// A freshly loaded asset: no version yet.
    pub fn new(template: u64) -> (r: ModAsset)
        ensures
            r.template == template,
            r.version is None,
    {
        ModAsset { template, version: None }
    }

    /// The current version tick.
    pub fn version(&self) -> (r: Option<u64>)
        ensures
            r == self.version,
    {
        self.version
    }

    /// The version this setup runs under: the already assigned tick, or the
    /// current change tick, assigned now, for a first setup.
    pub fn assign_version(&mut self, change_tick: u64) -> (r: u64)
        ensures
            r == (match old(self).version {
                Some(v) => v,
                None => change_tick,
            }),
            final(self).version == Some(r),
            final(self).template == old(self).template,
    {
        match self.version {
            Some(v) => v,
            None => {
                self.version = Some(change_tick);
                change_tick
            },
        }
    }
}

/// Whether a scheduled unit runs this tick.
#[derive(Clone, Copy, Debug, PartialEq, Eq, Structural)]
pub enum RunDecision {
    /// Construct a fresh execution context and invoke the guest entry point.
    Run,
    /// Do nothing; this is not an error.
    Skip,
}

/// The run gate of a scheduled unit: it runs exactly when the owning asset
/// is still loaded and its live version equals the captured one. An
/// unloaded mod and a stale registration are both silent no-ops.
pub open spec fn spec_run_decision(live: Option<Option<u64>>, captured: u64) -> RunDecision {
    match live {
        Some(Some(v)) => if v == captured {
            RunDecision::Run
        } else {
            RunDecision::Skip
        },
        _ => RunDecision::Skip,
    }
}

/// Decide whether a unit captured under `captured` runs against the current
/// asset store state: `asset` is the asset under the unit's id, if still
/// loaded.
pub fn run_decision(asset: Option<&ModAsset>, captured: u64) -> (r: RunDecision)
    ensures
        r == spec_run_decision(
            match asset {
                Some(a) => Some(a.version),
                None => None,
            },
            captured,
        ),
{
    match asset {
        Some(a) => match a.version {
            Some(v) => if v == captured {
                RunDecision::Run
            } else {
                RunDecision::Skip
            },
            None => RunDecision::Skip,
        },
        None => RunDecision::Skip,
    }
}

/// Staleness: a unit captured under version `v1` is a no-op once the owning
/// mod's live version has advanced to any `v2 != v1`, and likewise once the
/// asset is unloaded or reset.
pub proof fn lemma_stale_unit_skips(live: Option<Option<u64>>, v1: u64)
    ensures
        (live matches Some(Some(v2)) && v2 != v1) ==> spec_run_decision(live, v1)
            == RunDecision::Skip,
        live is None ==> spec_run_decision(live, v1) == RunDecision::Skip,
        live == Some(Option::<u64>::None) ==> spec_run_decision(live, v1) == RunDecision::Skip,
{
}

} // verus!
