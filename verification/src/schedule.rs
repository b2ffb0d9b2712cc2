//! Schedules in which mod systems are allowed to run.
//!
//! A mod asks for a schedule by name when it registers a system; the host
//! only honours the request when that schedule was enabled for the mod's
//! access. None of the host's one-shot startup phases are offered: a mod
//! cannot be guaranteed to load fast enough to run in them, so a dedicated
//! mod-startup phase takes their place.

use vstd::prelude::*;
use vstd::string::*;

use crate::paths::str_eq;

verus! {

/// A schedule mod systems can be attached to.
#[derive(Debug, PartialEq, Eq)]
pub enum ModSchedule {
    /// A phase that runs once after one or more new mods finished loading.
    ModStartup,
    PreUpdate,
    Update,
    PostUpdate,
    FixedPreUpdate,
    FixedUpdate,
    FixedPostUpdate,
    /// A host-defined schedule, identified by the name mods register with.
    Custom { name: String },
}

/// Mathematical model of a `ModSchedule`.
pub ghost enum ModScheduleModel {
    ModStartup,
    PreUpdate,
    Update,
    PostUpdate,
    FixedPreUpdate,
    FixedUpdate,
    FixedPostUpdate,
    Custom { name: Seq<char> },
}

impl View for ModSchedule {
    type V = ModScheduleModel;

    open spec fn view(&self) -> ModScheduleModel {
        match self {
            ModSchedule::ModStartup => ModScheduleModel::ModStartup,
            ModSchedule::PreUpdate => ModScheduleModel::PreUpdate,
            ModSchedule::Update => ModScheduleModel::Update,
            ModSchedule::PostUpdate => ModScheduleModel::PostUpdate,
            ModSchedule::FixedPreUpdate => ModScheduleModel::FixedPreUpdate,
            ModSchedule::FixedUpdate => ModScheduleModel::FixedUpdate,
            ModSchedule::FixedPostUpdate => ModScheduleModel::FixedPostUpdate,
            ModSchedule::Custom { name } => ModScheduleModel::Custom { name: name@ },
        }
    }
}

impl DeepView for ModSchedule {
    type V = ModScheduleModel;

    open spec fn deep_view(&self) -> ModScheduleModel {
        self.view()
    }
}

impl ModSchedule {
    /// An exact copy.
    pub fn duplicate(&self) -> (r: ModSchedule)
        ensures
            r@ == self@,
    {
        match self {
            ModSchedule::ModStartup => ModSchedule::ModStartup,
            ModSchedule::PreUpdate => ModSchedule::PreUpdate,
            ModSchedule::Update => ModSchedule::Update,
            ModSchedule::PostUpdate => ModSchedule::PostUpdate,
            ModSchedule::FixedPreUpdate => ModSchedule::FixedPreUpdate,
            ModSchedule::FixedUpdate => ModSchedule::FixedUpdate,
            ModSchedule::FixedPostUpdate => ModSchedule::FixedPostUpdate,
            ModSchedule::Custom { name } => ModSchedule::Custom { name: name.clone() },
        }
    }

    /// True when the two values stand for the same schedule.
    pub fn same_as(&self, other: &ModSchedule) -> (r: bool)
        ensures
            r == (self@ == other@),
    {
        match (self, other) {
            (ModSchedule::ModStartup, ModSchedule::ModStartup) => true,
            (ModSchedule::PreUpdate, ModSchedule::PreUpdate) => true,
            (ModSchedule::Update, ModSchedule::Update) => true,
            (ModSchedule::PostUpdate, ModSchedule::PostUpdate) => true,
            (ModSchedule::FixedPreUpdate, ModSchedule::FixedPreUpdate) => true,
            (ModSchedule::FixedUpdate, ModSchedule::FixedUpdate) => true,
            (ModSchedule::FixedPostUpdate, ModSchedule::FixedPostUpdate) => true,
            (ModSchedule::Custom { name: a }, ModSchedule::Custom { name: b }) => str_eq(
                a.as_str(),
                b.as_str(),
            ),
            _ => false,
        }
    }
}

/// A schedule as a mod requests it when registering a system.
pub enum ScheduleRequest {
    ModStartup,
    PreUpdate,
    Update,
    PostUpdate,
    FixedPreUpdate,
    FixedUpdate,
    FixedPostUpdate,
    /// Request for a host-defined schedule, by name.
    Custom(String),
}

/// Mathematical model of a `ScheduleRequest`.
pub ghost enum ScheduleRequestModel {
    ModStartup,
    PreUpdate,
    Update,
    PostUpdate,
    FixedPreUpdate,
    FixedUpdate,
    FixedPostUpdate,
    Custom(Seq<char>),
}

impl View for ScheduleRequest {
    type V = ScheduleRequestModel;

    open spec fn view(&self) -> ScheduleRequestModel {
        match self {
            ScheduleRequest::ModStartup => ScheduleRequestModel::ModStartup,
            ScheduleRequest::PreUpdate => ScheduleRequestModel::PreUpdate,
            ScheduleRequest::Update => ScheduleRequestModel::Update,
            ScheduleRequest::PostUpdate => ScheduleRequestModel::PostUpdate,
            ScheduleRequest::FixedPreUpdate => ScheduleRequestModel::FixedPreUpdate,
            ScheduleRequest::FixedUpdate => ScheduleRequestModel::FixedUpdate,
            ScheduleRequest::FixedPostUpdate => ScheduleRequestModel::FixedPostUpdate,
            ScheduleRequest::Custom(name) => ScheduleRequestModel::Custom(name@),
        }
    }
}

/// The built-in schedule a request stands for, if it is not a custom one.
pub open spec fn spec_builtin_of(req: ScheduleRequestModel) -> Option<ModScheduleModel> {
    match req {
        ScheduleRequestModel::ModStartup => Some(ModScheduleModel::ModStartup),
        ScheduleRequestModel::PreUpdate => Some(ModScheduleModel::PreUpdate),
        ScheduleRequestModel::Update => Some(ModScheduleModel::Update),
        ScheduleRequestModel::PostUpdate => Some(ModScheduleModel::PostUpdate),
        ScheduleRequestModel::FixedPreUpdate => Some(ModScheduleModel::FixedPreUpdate),
        ScheduleRequestModel::FixedUpdate => Some(ModScheduleModel::FixedUpdate),
        ScheduleRequestModel::FixedPostUpdate => Some(ModScheduleModel::FixedPostUpdate),
        ScheduleRequestModel::Custom(_) => None,
    }
}

/// The first enabled custom schedule with the given name.
pub open spec fn spec_find_custom(
    list: Seq<ModScheduleModel>,
    name: Seq<char>,
) -> Option<ModScheduleModel>
    decreases list.len(),
{
    if list.len() == 0 {
        None
    } else if list[0] matches ModScheduleModel::Custom { name: n } && n == name {
        Some(list[0])
    } else {
        spec_find_custom(list.drop_first(), name)
    }
}

/// What a request evaluates to against an enabled-schedule list: a built-in
/// request resolves to itself exactly when it is enabled, a custom request
/// to the first enabled custom schedule of that name.
pub open spec fn spec_evaluate(
    list: Seq<ModScheduleModel>,
    req: ScheduleRequestModel,
) -> Option<ModScheduleModel> {
    match spec_builtin_of(req) {
        Some(m) => if list.contains(m) {
            Some(m)
        } else {
            None
        },
        None => spec_find_custom(list, req->Custom_0),
    }
}

/// The collection of schedules in which a given mod access may run systems.
pub struct ModSchedules(pub Vec<ModSchedule>);

impl View for ModSchedules {
    type V = Seq<ModScheduleModel>;

    open spec fn view(&self) -> Seq<ModScheduleModel> {
        self.0.deep_view()
    }
}

impl ModSchedules {
    /// No schedules: mods with these schedules never run.
    pub fn empty() -> (r: ModSchedules)
        ensures
            r@ == Seq::<ModScheduleModel>::empty(),
    {
        let v: Vec<ModSchedule> = Vec::new();
        let r = ModSchedules(v);
        proof {
            assert(r@ =~= Seq::<ModScheduleModel>::empty());
        }
        r
    }

    /// True when the schedule is already in the collection.
    pub fn contains(&self, schedule: &ModSchedule) -> (r: bool)
        ensures
            r == self@.contains(schedule@),
    {
        let mut i: usize = 0;
        while i < self.0.len()
            invariant
                0 <= i <= self.0.len(),
                forall|k: int| 0 <= k < i ==> self@[k] != schedule@,
            decreases self.0.len() - i,
        {
            if self.0[i].same_as(schedule) {
                assert(self@[i as int] == schedule@);
                return true;
            }
            i = i + 1;
        }
        false
    }

    /// Add a schedule. A schedule may be enabled at most once.
    pub fn push(&mut self, schedule: ModSchedule)
        requires
            !old(self)@.contains(schedule@),
        ensures
            final(self)@ == old(self)@.push(schedule@),
    {
        let ghost prev = self@;
        self.0.push(schedule);
        proof {
            assert(self@ =~= prev.push(self.0@.last()@));
        }
    }

    /// An exact copy.
    pub fn duplicate(&self) -> (r: ModSchedules)
        ensures
            r@ == self@,
    {
        let mut out: Vec<ModSchedule> = Vec::new();
        let mut i: usize = 0;
        while i < self.0.len()
            invariant
                0 <= i <= self.0.len(),
                out.deep_view().len() == i,
                forall|k: int| 0 <= k < i ==> out.deep_view()[k] == self@[k],
            decreases self.0.len() - i,
        {
            let ghost prev = out.deep_view();
            let d = self.0[i].duplicate();
            out.push(d);
            proof {
                assert(out.deep_view() =~= prev.push(d@));
            }
            i = i + 1;
        }
        let r = ModSchedules(out);
        proof {
            assert(r@ =~= self@);
        }
        r
    }

    /// Resolve a mod's schedule request against this collection.
    ///
    /// Returns the schedule to use when the request names an enabled one,
    /// and nothing when that schedule was never enabled.
    pub fn evaluate(&self, request: &ScheduleRequest) -> (r: Option<ModSchedule>)
        ensures
            match r {
                Some(m) => spec_evaluate(self@, request@) == Some(m@),
                None => spec_evaluate(self@, request@) is None,
            },
    {
        if let ScheduleRequest::Custom(name) = request {
            let mut i: usize = 0;
            proof {
                assert(self@.skip(0) =~= self@);
            }
            while i < self.0.len()
                invariant
                    0 <= i <= self.0.len(),
                    request@ == ScheduleRequestModel::Custom(name@),
                    spec_find_custom(self@, name@) == spec_find_custom(
                        self@.skip(i as int),
                        name@,
                    ),
                decreases self.0.len() - i,
            {
                proof {
                    assert(self@.skip(i as int).drop_first() =~= self@.skip(i + 1));
                    assert(self@.skip(i as int)[0] == self@[i as int]);
                }
                let is_hit = match &self.0[i] {
                    ModSchedule::Custom { name: n } => str_eq(n.as_str(), name.as_str()),
                    _ => false,
                };
                if is_hit {
                    let m = self.0[i].duplicate();
                    proof {
                        assert(spec_find_custom(self@.skip(i as int), name@) == Some(
                            self@[i as int],
                        ));
                        assert(spec_evaluate(self@, request@) == Some(m@));
                    }
                    return Some(m);
                }
                i = i + 1;
            }
            proof {
                assert(self@.skip(self.0.len() as int) =~= Seq::<ModScheduleModel>::empty());
            }
            return None;
        }
        let m = match request {
            ScheduleRequest::ModStartup => ModSchedule::ModStartup,
            ScheduleRequest::PreUpdate => ModSchedule::PreUpdate,
            ScheduleRequest::Update => ModSchedule::Update,
            ScheduleRequest::PostUpdate => ModSchedule::PostUpdate,
            ScheduleRequest::FixedPreUpdate => ModSchedule::FixedPreUpdate,
            ScheduleRequest::FixedUpdate => ModSchedule::FixedUpdate,
            ScheduleRequest::FixedPostUpdate => ModSchedule::FixedPostUpdate,
            ScheduleRequest::Custom(_) => ModSchedule::ModStartup,  // ruled out above
        };
        if self.contains(&m) {
            Some(m)
        } else {
            None
        }
    }
}

impl Default for ModSchedules {
    /// Every repeating schedule, in phase order.
    fn default() -> (r: ModSchedules)
        ensures
            r@ == seq![
                ModScheduleModel::ModStartup,
                ModScheduleModel::PreUpdate,
                ModScheduleModel::Update,
                ModScheduleModel::PostUpdate,
                ModScheduleModel::FixedPreUpdate,
                ModScheduleModel::FixedUpdate,
                ModScheduleModel::FixedPostUpdate,
            ],
    {
        let mut v: Vec<ModSchedule> = Vec::new();
        v.push(ModSchedule::ModStartup);
        v.push(ModSchedule::PreUpdate);
        v.push(ModSchedule::Update);
        v.push(ModSchedule::PostUpdate);
        v.push(ModSchedule::FixedPreUpdate);
        v.push(ModSchedule::FixedUpdate);
        v.push(ModSchedule::FixedPostUpdate);
        let r = ModSchedules(v);
        proof {
            assert(r@ =~= seq![
                ModScheduleModel::ModStartup,
                ModScheduleModel::PreUpdate,
                ModScheduleModel::Update,
                ModScheduleModel::PostUpdate,
                ModScheduleModel::FixedPreUpdate,
                ModScheduleModel::FixedUpdate,
                ModScheduleModel::FixedPostUpdate,
            ]);
        }
        r
    }
}

} // verus!
