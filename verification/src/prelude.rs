//! The crate's common imports, re-exported in one place.

pub use crate::access::{FilteredAccess, ModAccess};
pub use crate::component::{ComponentBridge, ComponentRef};
pub use crate::methods::{FunctionAccess, FunctionIndex, MethodTarget};
pub use crate::mods::{Mod, ModSystemSet};
pub use crate::schedule::{ModSchedule, ModSchedules, ScheduleRequest};
pub use crate::world::World;
