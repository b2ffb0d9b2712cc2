//! Authoring-side registration data.
//!
//! Components are exported to mods explicitly. A component marked for export
//! carries a [`WasvyExport`] marker in the type registry, and each exported
//! method may submit a [`WasvyMethodMetadata`] record carrying its
//! source-level argument names, because raw reflection does not reliably
//! preserve them.

use vstd::prelude::*;

verus! {

/// Marker type data for components exported to mods.
///
/// Only component types carrying this marker appear in the method index and
/// in generated interface descriptions.
#[derive(Clone, Copy, Debug, PartialEq, Eq, Structural)]
pub struct WasvyExport;

/// Captured method argument names for interface generation.
///
/// Emitted by the authoring layer so generated signatures can use real
/// parameter names instead of positional fallbacks.
pub struct WasvyMethodMetadata {
    /// Fully-qualified type path of the receiver.
    pub type_path: String,
    /// Method name as exposed to mods.
    pub method: String,
    /// Ordered argument names (excluding the receiver).
    pub arg_names: Vec<String>,
}

/// Mathematical model of a metadata record.
pub ghost struct MetadataModel {
    pub type_path: Seq<char>,
    pub method: Seq<char>,
    pub arg_names: Seq<Seq<char>>,
}

impl View for WasvyMethodMetadata {
    type V = MetadataModel;

    open spec fn view(&self) -> MetadataModel {
        MetadataModel {
            type_path: self.type_path@,
            method: self.method@,
            arg_names: self.arg_names.deep_view(),
        }
    }
}

impl DeepView for WasvyMethodMetadata {
    type V = MetadataModel;

    open spec fn deep_view(&self) -> MetadataModel {
        self.view()
    }
}

/// Minimal invocation surface expected from generated guest bindings.
///
/// Generated guest resources implement this so the typed wrappers can reach
/// the host's dynamic `invoke` entry point.
pub trait ComponentInvokeRaw {
    fn invoke_raw(&self, method: &str, params: &str) -> String;
}

} // verus!
