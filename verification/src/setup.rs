//! Which mods need a setup pass.
//!
//! A mod must run its setup entry point exactly once per (mod, access,
//! version). The host remembers which (mod, access) pairs have already been
//! set up; loading or hot-reloading a mod's asset forgets those pairs so
//! the new version is set up again, and granting a new access schedules a
//! setup for just that access.

use vstd::prelude::*;

use crate::access::ModAccess;

verus! {

/// One (mod, access) pair whose setup already ran.
#[derive(Clone, Copy, Debug, PartialEq, Eq, Structural)]
pub struct RanWith {
    pub mod_id: usize,
    pub access: ModAccess,
}

/// What the setup pass sees of one loaded mod.
pub struct ModEntry {
    pub mod_id: usize,
    pub asset_id: u64,
    /// True when the mod changed since the last pass (an access was granted
    /// or withdrawn).
    pub changed: bool,
    pub accesses: Vec<ModAccess>,
}

/// True when the pair `(mod_id, access)` is recorded as already set up.
pub open spec fn spec_ran_contains(rw: Seq<RanWith>, mod_id: usize, access: ModAccess) -> bool {
    exists|i: int| 0 <= i < rw.len() && (#[trigger] rw[i]) == (RanWith { mod_id, access })
}

/// True when a pair is invalidated by this pass: its mod's asset has just
/// been loaded (or hot-reloaded), and the pair names one of the mod's
/// current accesses.
pub open spec fn spec_invalidated(
    p: RanWith,
    mods: Seq<ModEntry>,
    loaded_assets: Seq<u64>,
) -> bool {
    exists|m: int|
        0 <= m < mods.len() && (#[trigger] mods[m]).mod_id == p.mod_id && loaded_assets.contains(
            mods[m].asset_id,
        ) && mods[m].accesses@.contains(p.access)
}

fn assets_contain(loaded_assets: &Vec<u64>, asset: u64) -> (r: bool)
    ensures
        r == loaded_assets@.contains(asset),
{
    let mut i: usize = 0;
    while i < loaded_assets.len()
        invariant
            0 <= i <= loaded_assets@.len(),
            forall|k: int| 0 <= k < i ==> loaded_assets@[k] != asset,
        decreases loaded_assets@.len() - i,
    {
        if loaded_assets[i] == asset {
            assert(loaded_assets@[i as int] == asset);
            return true;
        }
        i = i + 1;
    }
    false
}

fn accesses_contain(accesses: &Vec<ModAccess>, access: ModAccess) -> (r: bool)
    ensures
        r == accesses@.contains(access),
{
    let mut i: usize = 0;
    while i < accesses.len()
        invariant
            0 <= i <= accesses@.len(),
            forall|k: int| 0 <= k < i ==> accesses@[k] != access,
        decreases accesses@.len() - i,
    {
        if accesses[i] == access {
            assert(accesses@[i as int] == access);
            return true;
        }
        i = i + 1;
    }
    false
}

fn is_invalidated(p: &RanWith, mods: &Vec<ModEntry>, loaded_assets: &Vec<u64>) -> (r: bool)
    ensures
        r == spec_invalidated(*p, mods@, loaded_assets@),
{
    let mut m: usize = 0;
    while m < mods.len()
        invariant
            0 <= m <= mods@.len(),
            forall|k: int|
                0 <= k < m ==> !((#[trigger] mods@[k]).mod_id == p.mod_id
                    && loaded_assets@.contains(mods@[k].asset_id) && mods@[k].accesses@.contains(
                    p.access,
                )),
        decreases mods@.len() - m,
    {
        if mods[m].mod_id == p.mod_id {
            if assets_contain(loaded_assets, mods[m].asset_id) {
                if accesses_contain(&mods[m].accesses, p.access) {
                    return true;
                }
            }
        }
        m = m + 1;
    }
    false
}

fn ran_contains(rw: &Vec<RanWith>, mod_id: usize, access: ModAccess) -> (r: bool)
    ensures
        r == spec_ran_contains(rw@, mod_id, access),
{
    let mut i: usize = 0;
    while i < rw.len()
        invariant
            0 <= i <= rw@.len(),
            forall|k: int| 0 <= k < i ==> (#[trigger] rw@[k]) != (RanWith { mod_id, access }),
        decreases rw@.len() - i,
    {
        if rw[i].mod_id == mod_id && rw[i].access == access {
            assert(rw@[i as int] == (RanWith { mod_id, access }));
            return true;
        }
        i = i + 1;
    }
    false
}

/// Forget the already-ran pairs of every mod whose asset just loaded: the
/// mod must be set up again, for all of its current accesses, under the
/// new version.
pub fn forget_ran(ran_with: &mut Vec<RanWith>, mods: &Vec<ModEntry>, loaded_assets: &Vec<u64>)
    ensures
        forall|p: RanWith|
            #[trigger] final(ran_with)@.contains(p) <==> (old(ran_with)@.contains(p)
                && !spec_invalidated(p, mods@, loaded_assets@)),
{
    let mut kept: Vec<RanWith> = Vec::new();
    let mut i: usize = 0;
    while i < ran_with.len()
        invariant
            0 <= i <= ran_with@.len(),
            forall|p: RanWith|
                #[trigger] kept@.contains(p) <==> (old(ran_with)@.take(i as int).contains(p)
                    && !spec_invalidated(p, mods@, loaded_assets@)),
            ran_with@ == old(ran_with)@,
        decreases ran_with@.len() - i,
    {
        let entry = RanWith { mod_id: ran_with[i].mod_id, access: ran_with[i].access };
        proof {
            assert(entry == ran_with@[i as int]);
        }
        let ghost prev = kept@;
        if !is_invalidated(&entry, mods, loaded_assets) {
            kept.push(entry);
        }
        proof {
            assert forall|p: RanWith| #[trigger] kept@.contains(p) <==> (old(ran_with)@.take(
                i + 1,
            ).contains(p) && !spec_invalidated(p, mods@, loaded_assets@)) by {
                let taken = old(ran_with)@.take(i + 1);
                assert(taken.drop_last() =~= old(ran_with)@.take(i as int));
                assert(taken.last() == entry);
                if kept@.contains(p) {
                    let w = choose|w: int| 0 <= w < kept@.len() && kept@[w] == p;
                    if w < prev.len() {
                        assert(prev.contains(p));
                        let v = choose|v: int|
                            0 <= v < taken.drop_last().len() && taken.drop_last()[v] == p;
                        assert(taken[v] == p);
                    } else {
                        assert(p == entry);
                        assert(taken[i as int] == p);
                    }
                }
                if taken.contains(p) && !spec_invalidated(p, mods@, loaded_assets@) {
                    let v = choose|v: int| 0 <= v < taken.len() && taken[v] == p;
                    if v < i {
                        assert(taken.drop_last()[v] == p);
                        assert(old(ran_with)@.take(i as int).contains(p));
                        assert(prev.contains(p));
                        let w = choose|w: int| 0 <= w < prev.len() && prev[w] == p;
                        assert(kept@[w] == p);
                    } else {
                        assert(p == entry);
                        assert(kept@[kept@.len() - 1] == p);
                    }
                }
            }
        }
        i = i + 1;
    }
    proof {
        assert(old(ran_with)@.take(ran_with@.len() as int) =~= old(ran_with)@);
    }
    *ran_with = kept;
}

/// One mod selected for setup, with the accesses that still need it.
pub struct SetupItem {
    pub asset_id: u64,
    pub mod_id: usize,
    pub accesses: Vec<ModAccess>,
}

/// The accesses of a mod whose setup has not run yet, in grant order.
pub open spec fn spec_pending(
    accesses: Seq<ModAccess>,
    mod_id: usize,
    rw: Seq<RanWith>,
) -> Seq<ModAccess>
    decreases accesses.len(),
{
    if accesses.len() == 0 {
        Seq::empty()
    } else {
        let prev = spec_pending(accesses.drop_last(), mod_id, rw);
        if spec_ran_contains(rw, mod_id, accesses.last()) {
            prev
        } else {
            prev.push(accesses.last())
        }
    }
}

fn pending_accesses(entry: &ModEntry, rw: &Vec<RanWith>) -> (r: Vec<ModAccess>)
    ensures
        r@ == spec_pending(entry.accesses@, entry.mod_id, rw@),
{
    let mut out: Vec<ModAccess> = Vec::new();
    let mut i: usize = 0;
    while i < entry.accesses.len()
        invariant
            0 <= i <= entry.accesses@.len(),
            out@ =~= spec_pending(entry.accesses@.take(i as int), entry.mod_id, rw@),
        decreases entry.accesses@.len() - i,
    {
        proof {
            assert(entry.accesses@.take(i + 1).drop_last() =~= entry.accesses@.take(i as int));
            assert(entry.accesses@.take(i + 1).last() == entry.accesses@[i as int]);
        }
        if !ran_contains(rw, entry.mod_id, entry.accesses[i]) {
            out.push(entry.accesses[i]);
        }
        proof {
            assert(out@ =~= spec_pending(entry.accesses@.take(i + 1), entry.mod_id, rw@));
        }
        i = i + 1;
    }
    proof {
        assert(entry.accesses@.take(entry.accesses@.len() as int) =~= entry.accesses@);
    }
    out
}

/// Whether a mod takes part in this pass at all: it changed, or its asset
/// just finished loading.
pub open spec fn spec_considered(m: ModEntry, loaded_assets: Seq<u64>) -> bool {
    m.changed || loaded_assets.contains(m.asset_id)
}

/// One selected item is sound: it names a considered mod and carries
/// exactly that mod's pending accesses, of which there is at least one.
pub open spec fn spec_item_sound(
    item: SetupItem,
    mods: Seq<ModEntry>,
    loaded_assets: Seq<u64>,
    rw: Seq<RanWith>,
) -> bool {
    exists|m: int|
        0 <= m < mods.len() && spec_considered(#[trigger] mods[m], loaded_assets)
            && item.mod_id == mods[m].mod_id && item.asset_id == mods[m].asset_id
            && item.accesses@ == spec_pending(mods[m].accesses@, mods[m].mod_id, rw)
            && item.accesses@.len() > 0
}

/// Select the mods to set up: every considered mod that still has pending
/// accesses, in order, each with exactly its pending accesses.
pub fn select_setup(
    mods: &Vec<ModEntry>,
    loaded_assets: &Vec<u64>,
    ran_with: &Vec<RanWith>,
) -> (r: Vec<SetupItem>)
    ensures
        forall|k: int|
            0 <= k < r@.len() ==> spec_item_sound(
                #[trigger] r@[k],
                mods@,
                loaded_assets@,
                ran_with@,
            ),
        forall|m: int|
            0 <= m < mods@.len() && spec_considered(#[trigger] mods@[m], loaded_assets@)
                && spec_pending(mods@[m].accesses@, mods@[m].mod_id, ran_with@).len() > 0
                ==> exists|k: int|
                0 <= k < r@.len() && (#[trigger] r@[k]).mod_id == mods@[m].mod_id,
{
    let mut out: Vec<SetupItem> = Vec::new();
    let mut m: usize = 0;
    while m < mods.len()
        invariant
            0 <= m <= mods@.len(),
            forall|k: int|
                0 <= k < out@.len() ==> spec_item_sound(
                    #[trigger] out@[k],
                    mods@,
                    loaded_assets@,
                    ran_with@,
                ),
            forall|w: int|
                0 <= w < m && spec_considered(#[trigger] mods@[w], loaded_assets@)
                    && spec_pending(mods@[w].accesses@, mods@[w].mod_id, ran_with@).len() > 0
                    ==> exists|k: int|
                    0 <= k < out@.len() && (#[trigger] out@[k]).mod_id == mods@[w].mod_id,
        decreases mods@.len() - m,
    {
        let considered = mods[m].changed || assets_contain(loaded_assets, mods[m].asset_id);
        if considered {
            let pending = pending_accesses(&mods[m], ran_with);
            if pending.len() > 0 {
                let ghost prev = out@;
                let item = SetupItem {
                    asset_id: mods[m].asset_id,
                    mod_id: mods[m].mod_id,
                    accesses: pending,
                };
                out.push(item);
                proof {
                    assert(out@[prev.len() as int].mod_id == mods@[m as int].mod_id);
                    assert forall|w: int|
                        0 <= w < m + 1 && spec_considered(#[trigger] mods@[w], loaded_assets@)
                            && spec_pending(
                            mods@[w].accesses@,
                            mods@[w].mod_id,
                            ran_with@,
                        ).len() > 0 implies exists|k: int|
                        0 <= k < out@.len() && (#[trigger] out@[k]).mod_id == mods@[w].mod_id by {
                        if w < m {
                            let k0 = choose|k0: int|
                                0 <= k0 < prev.len() && (#[trigger] prev[k0]).mod_id
                                    == mods@[w].mod_id;
                            assert(out@[k0].mod_id == mods@[w].mod_id);
                        } else {
                            assert(out@[prev.len() as int].mod_id == mods@[w].mod_id);
                        }
                    }
                    assert forall|k: int| 0 <= k < out@.len() implies spec_item_sound(
                        #[trigger] out@[k],
                        mods@,
                        loaded_assets@,
                        ran_with@,
                    ) by {
                        if k < prev.len() {
                            assert(out@[k] == prev[k]);
                        } else {
                            assert(out@[k] == item);
                            assert(0 <= m < mods@.len() && spec_considered(
                                mods@[m as int],
                                loaded_assets@,
                            ));
                            assert(spec_item_sound(item, mods@, loaded_assets@, ran_with@));
                        }
                    }
                }
            }
        }
        m = m + 1;
    }
    out
}

/// Record that a mod's setup ran for the given accesses.
pub fn mark_ran(ran_with: &mut Vec<RanWith>, mod_id: usize, accesses: &Vec<ModAccess>)
    ensures
        forall|p: RanWith|
            #[trigger] final(ran_with)@.contains(p) <==> (old(ran_with)@.contains(p) || (
            p.mod_id == mod_id && accesses@.contains(p.access))),
{
    let mut i: usize = 0;
    while i < accesses.len()
        invariant
            0 <= i <= accesses@.len(),
            forall|p: RanWith|
                #[trigger] ran_with@.contains(p) <==> (old(ran_with)@.contains(p) || (p.mod_id
                    == mod_id && accesses@.take(i as int).contains(p.access))),
        decreases accesses@.len() - i,
    {
        let access = accesses[i];
        proof {
            assert(access == accesses@[i as int]);
        }
        let ghost prev = ran_with@;
        if !ran_contains(ran_with, mod_id, access) {
            ran_with.push(RanWith { mod_id, access });
        }
        proof {
            assert forall|p: RanWith| #[trigger] ran_with@.contains(p) <==> (old(
                ran_with,
            )@.contains(p) || (p.mod_id == mod_id && accesses@.take(i + 1).contains(p.access)))
                by {
                let taken = accesses@.take(i + 1);
                assert(taken.drop_last() =~= accesses@.take(i as int));
                assert(taken.last() == access);
                if ran_with@.contains(p) {
                    let w = choose|w: int| 0 <= w < ran_with@.len() && ran_with@[w] == p;
                    if w < prev.len() {
                        assert(prev[w] == p);
                        assert(prev.contains(p));
                        if p.mod_id == mod_id && accesses@.take(i as int).contains(p.access) {
                            let v = choose|v: int|
                                0 <= v < i && accesses@.take(i as int)[v] == p.access;
                            assert(taken[v] == p.access);
                        }
                    } else {
                        assert(p == (RanWith { mod_id, access }));
                        assert(taken[i as int] == access);
                    }
                }
                if old(ran_with)@.contains(p) {
                    assert(prev.contains(p));
                    let w = choose|w: int| 0 <= w < prev.len() && prev[w] == p;
                    assert(ran_with@[w] == p);
                }
                if p.mod_id == mod_id && taken.contains(p.access) {
                    let v = choose|v: int| 0 <= v < taken.len() && taken[v] == p.access;
                    if v < i {
                        assert(accesses@.take(i as int)[v] == p.access);
                        assert(prev.contains(p));
                        let w = choose|w: int| 0 <= w < prev.len() && prev[w] == p;
                        assert(ran_with@[w] == p);
                    } else {
                        assert(p.access == access);
                        if spec_ran_contains(prev, mod_id, access) {
                            let w = choose|w: int|
                                0 <= w < prev.len() && prev[w] == (RanWith {
                                    mod_id,
                                    access,
                                });
                            assert(ran_with@[w] == p);
                        } else {
                            assert(ran_with@[ran_with@.len() - 1] == (RanWith {
                                mod_id,
                                access,
                            }));
                        }
                    }
                }
            }
        }
        i = i + 1;
    }
    proof {
        assert(accesses@.take(accesses@.len() as int) =~= accesses@);
    }
}

} // verus!
