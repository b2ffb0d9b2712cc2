//! Loaded mods and their accesses.
//!
//! A mod is a loaded binary plus the explicit list of accesses it has been
//! granted: it runs in the world domain or in a sandbox only when that
//! access was enabled for it. The bulk system sets allow enabling,
//! disabling and ordering every mod system, one mod's systems, or one
//! access's systems at once.

use vstd::prelude::*;

use crate::access::ModAccess;

verus! {

/// System sets for the dynamically scheduled mod systems.
#[derive(Clone, Copy, Debug, PartialEq, Eq, Structural)]
pub enum ModSystemSet {
    /// Every mod system.
    All,
    /// Every system of one mod.
    Mod(usize),
    /// Every system granted one specific access.
    Access(ModAccess),
}

impl ModSystemSet {
    /// The set of all mod systems.
    pub fn new() -> (r: ModSystemSet)
        ensures
            r == ModSystemSet::All,
    {
        ModSystemSet::All
    }

    /// The set of one mod's systems.
    pub fn new_mod(mod_id: usize) -> (r: ModSystemSet)
        ensures
            r == ModSystemSet::Mod(mod_id),
    {
        ModSystemSet::Mod(mod_id)
    }

    /// The set of every system running in the world domain.
    pub fn new_world() -> (r: ModSystemSet)
        ensures
            r == ModSystemSet::Access(ModAccess::World),
    {
        ModSystemSet::Access(ModAccess::World)
    }

    /// The set of every system running in one sandbox.
    pub fn new_sandboxed(sandbox_id: usize) -> (r: ModSystemSet)
        ensures
            r == ModSystemSet::Access(ModAccess::Sandbox(sandbox_id)),
    {
        ModSystemSet::Access(ModAccess::Sandbox(sandbox_id))
    }
}

/// A loaded mod: a handle to its asset and the accesses it was granted.
pub struct Mod {
    asset: u64,
    access: Vec<ModAccess>,
}

impl Mod {
    /// Each access is granted at most once.
    pub open spec fn wf(self) -> bool {
        forall|i: int, j: int|
            0 <= i < j < self.accesses_view().len() ==> self.accesses_view()[i]
                != self.accesses_view()[j]
    }

    /// The granted accesses.
    pub closed spec fn accesses_view(self) -> Seq<ModAccess> {
        self.access@
    }

    /// The asset handle.
    pub closed spec fn asset_view(self) -> u64 {
        self.asset
    }

    /// A fresh mod over the given asset, with no access granted: it runs
    /// nowhere until one is enabled.
    pub fn new(asset: u64) -> (r: Mod)
        ensures
            r.wf(),
            r.asset_view() == asset,
            r.accesses_view() =~= Seq::<ModAccess>::empty(),
    {
        let r = Mod { asset, access: Vec::new() };
        proof {
            assert(r.accesses_view() =~= Seq::<ModAccess>::empty());
        }
        r
    }

    /// The asset handle of this mod.
    pub fn asset(&self) -> (r: u64)
        ensures
            r == self.asset_view(),
    {
        self.asset
    }

    /// The accesses this mod was granted, in the order they were enabled.
    pub fn accesses(&self) -> (r: &Vec<ModAccess>)
        ensures
            r@ == self.accesses_view(),
    {
        &self.access
    }

    fn contains_access(&self, access: &ModAccess) -> (r: bool)
        ensures
            r == self.accesses_view().contains(*access),
    {
        let mut i: usize = 0;
        while i < self.access.len()
            invariant
                0 <= i <= self.accesses_view().len(),
                forall|k: int| 0 <= k < i ==> self.accesses_view()[k] != *access,
            decreases self.accesses_view().len() - i,
        {
            if self.access[i] == *access {
                assert(self.accesses_view()[i as int] == *access);
                return true;
            }
            i = i + 1;
        }
        false
    }

    /// Grant an access. Returns true when it was newly granted, false when
    /// the mod already held it.
    pub fn enable_access(&mut self, access: ModAccess) -> (r: bool)
        requires
            old(self).wf(),
        ensures
            final(self).wf(),
            final(self).asset_view() == old(self).asset_view(),
            r == !old(self).accesses_view().contains(access),
            final(self).accesses_view() == (if r {
                old(self).accesses_view().push(access)
            } else {
                old(self).accesses_view()
            }),
    {
        if self.contains_access(&access) {
            false
        } else {
            let ghost prev = self.accesses_view();
            self.access.push(access);
            proof {
                assert(self.accesses_view() =~= prev.push(access));
            }
            true
        }
    }

    /// Withdraw an access. Returns true when the mod held it.
    pub fn disable_access(&mut self, access: &ModAccess) -> (r: bool)
        requires
            old(self).wf(),
        ensures
            final(self).wf(),
            final(self).asset_view() == old(self).asset_view(),
            r == old(self).accesses_view().contains(*access),
            !final(self).accesses_view().contains(*access),
            forall|a: ModAccess|
                a != *access ==> (#[trigger] final(self).accesses_view().contains(a)
                    == old(self).accesses_view().contains(a)),
    {
        let mut i: usize = 0;
        while i < self.access.len()
            invariant
                0 <= i <= self.accesses_view().len(),
                old(self).wf(),
                *self == *old(self),
                forall|k: int| 0 <= k < i ==> self.accesses_view()[k] != *access,
            decreases self.accesses_view().len() - i,
        {
            if self.access[i] == *access {
                let ghost prev = self.accesses_view();
                let _ = self.access.remove(i);
                proof {
                    assert(self.accesses_view() =~= prev.remove(i as int));
                    assert(prev[i as int] == *access);
                    assert forall|a: ModAccess|
                        a != *access implies (#[trigger] self.accesses_view().contains(a)
                            == prev.contains(a)) by {
                        if self.accesses_view().contains(a) {
                            let w = choose|w: int|
                                0 <= w < self.accesses_view().len()
                                    && self.accesses_view()[w] == a;
                            if w < i {
                                assert(prev[w] == a);
                            } else {
                                assert(prev[w + 1] == a);
                            }
                        }
                        if prev.contains(a) {
                            let w = choose|w: int| 0 <= w < prev.len() && prev[w] == a;
                            if w < i {
                                assert(self.accesses_view()[w] == a);
                            } else {
                                assert(w != i);
                                assert(self.accesses_view()[w - 1] == a);
                            }
                        }
                    }
                    assert forall|k: int|
                        0 <= k < self.accesses_view().len() implies #[trigger] self
                            .accesses_view()[k] != *access by {
                        if k < i {
                            assert(prev[k] == self.accesses_view()[k]);
                        } else {
                            assert(prev[k + 1] == self.accesses_view()[k]);
                        }
                    }
                    assert(prev.contains(*access)) by {
                        assert(prev[i as int] == *access);
                    }
                }
                return true;
            }
            i = i + 1;
        }
        false
    }
}

} // verus!
