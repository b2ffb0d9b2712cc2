//! The dynamic method index.
//!
//! The index is built from the reflected function registry: every exported
//! component type path is scanned for registered functions whose first
//! parameter is that component, taken by reference. Each surviving function
//! becomes one `(type path, method)` entry carrying its access kind, its
//! argument specifications and an opaque handle to the host-side callable.
//! Overloaded functions, owned receivers, unnamed functions and duplicate
//! keys are all excluded at build time.

use vstd::prelude::*;
use vstd::string::*;

use crate::paths::{
    spec_normalize_type_path, spec_method_from_name, spec_trim, spec_dec,
    normalize_type_path, method_from_name, trim_ws, str_eq, usize_to_dec_string,
};
use crate::authoring::{WasvyMethodMetadata, MetadataModel};

verus! {

/// Required access for a registered function.
#[derive(Clone, Copy, Debug, PartialEq, Eq, Structural)]
pub enum FunctionAccess {
    Read,
    Write,
}

/// How an argument is passed to a reflected function.
#[derive(Clone, Copy, Debug, PartialEq, Eq, Structural)]
pub enum Ownership {
    Owned,
    Ref,
    Mut,
}

/// The kind of target handle a method is invoked on.
///
/// `Read` stands for a shared handle and `Write` for an exclusive one.
#[derive(Clone, Copy, Debug, PartialEq, Eq, Structural)]
pub enum MethodTarget {
    Read,
    Write,
}

/// One argument in a reflected function signature, as the registry reports
/// it: the declared name may be missing.
pub struct ArgInfo {
    pub name: Option<String>,
    pub type_path: String,
    pub ownership: Ownership,
}

/// One registered function, as the registry reports it.
///
/// `function` is an opaque handle under which the host keeps the callable
/// itself; the index never runs it.
pub struct FunctionInfo {
    pub name: Option<String>,
    pub overloaded: bool,
    pub args: Vec<ArgInfo>,
    pub ret: String,
    pub function: u64,
}

/// One argument in an indexed method signature.
pub struct FunctionArg {
    pub name: String,
    pub type_path: String,
    pub ownership: Ownership,
}

/// One reflected function associated with a component method.
pub struct FunctionEntry {
    pub type_path: String,
    pub method: String,
    pub function_name: String,
    pub access: FunctionAccess,
    pub args: Vec<FunctionArg>,
    pub ret: String,
    pub function: u64,
}

/// Mathematical model of an `ArgInfo`.
pub ghost struct ArgInfoModel {
    pub name: Option<Seq<char>>,
    pub type_path: Seq<char>,
    pub ownership: Ownership,
}

/// Mathematical model of a `FunctionInfo`.
pub ghost struct FunctionInfoModel {
    pub name: Option<Seq<char>>,
    pub overloaded: bool,
    pub args: Seq<ArgInfoModel>,
    pub ret: Seq<char>,
    pub function: u64,
}

/// Mathematical model of a `FunctionArg`.
pub ghost struct ArgModel {
    pub name: Seq<char>,
    pub type_path: Seq<char>,
    pub ownership: Ownership,
}

/// Mathematical model of a `FunctionEntry`.
pub ghost struct EntryModel {
    pub type_path: Seq<char>,
    pub method: Seq<char>,
    pub function_name: Seq<char>,
    pub access: FunctionAccess,
    pub args: Seq<ArgModel>,
    pub ret: Seq<char>,
    pub function: u64,
}

impl View for ArgInfo {
    type V = ArgInfoModel;

    open spec fn view(&self) -> ArgInfoModel {
        ArgInfoModel {
            name: match self.name {
                Some(n) => Some(n@),
                None => None,
            },
            type_path: self.type_path@,
            ownership: self.ownership,
        }
    }
}

impl View for FunctionInfo {
    type V = FunctionInfoModel;

    open spec fn view(&self) -> FunctionInfoModel {
        FunctionInfoModel {
            name: match self.name {
                Some(n) => Some(n@),
                None => None,
            },
            overloaded: self.overloaded,
            args: self.args.deep_view(),
            ret: self.ret@,
            function: self.function,
        }
    }
}

impl DeepView for ArgInfo {
    type V = ArgInfoModel;

    open spec fn deep_view(&self) -> ArgInfoModel {
        self.view()
    }
}

impl DeepView for FunctionInfo {
    type V = FunctionInfoModel;

    open spec fn deep_view(&self) -> FunctionInfoModel {
        self.view()
    }
}

impl View for FunctionArg {
    type V = ArgModel;

    open spec fn view(&self) -> ArgModel {
        ArgModel { name: self.name@, type_path: self.type_path@, ownership: self.ownership }
    }
}

impl DeepView for FunctionArg {
    type V = ArgModel;

    open spec fn deep_view(&self) -> ArgModel {
        self.view()
    }
}

impl View for FunctionEntry {
    type V = EntryModel;

    open spec fn view(&self) -> EntryModel {
        EntryModel {
            type_path: self.type_path@,
            method: self.method@,
            function_name: self.function_name@,
            access: self.access,
            args: self.args.deep_view(),
            ret: self.ret@,
            function: self.function,
        }
    }
}

impl DeepView for FunctionEntry {
    type V = EntryModel;

    open spec fn deep_view(&self) -> EntryModel {
        self.view()
    }
}

/// True when a function survives every per-function exclusion rule: it has a
/// single signature, a receiver taken by reference whose normalized type path
/// is exported, a registered name, and a non-empty derived method name.
pub open spec fn fn_admitted(
    f: FunctionInfoModel,
    components: Seq<Seq<char>>,
    pkg: Seq<char>,
) -> bool {
    &&& !f.overloaded
    &&& f.args.len() > 0
    &&& (f.args[0].ownership == Ownership::Ref || f.args[0].ownership == Ownership::Mut)
    &&& components.contains(spec_normalize_type_path(f.args[0].type_path, pkg))
    &&& f.name is Some
    &&& spec_method_from_name(f.name->0).len() > 0
}

/// The argument-name override supplied for `(t, m)`, if any; the last
/// submitted record wins.
pub open spec fn spec_override_names(
    ovs: Seq<MetadataModel>,
    t: Seq<char>,
    m: Seq<char>,
    pkg: Seq<char>,
) -> Option<Seq<Seq<char>>>
    decreases ovs.len(),
{
    if ovs.len() == 0 {
        None
    } else {
        let last = ovs[ovs.len() - 1];
        if spec_normalize_type_path(last.type_path, pkg) == t && last.method == m {
            Some(last.arg_names)
        } else {
            spec_override_names(ovs.drop_last(), t, m, pkg)
        }
    }
}

/// The name of the `k`-th declared argument (0-based, receiver excluded):
/// the override table first, then the registry's name, then `argN`.
pub open spec fn spec_arg_name(
    a: ArgInfoModel,
    ov: Option<Seq<Seq<char>>>,
    k: int,
) -> Seq<char> {
    if ov is Some && 0 <= k < ov->0.len() {
        ov->0[k]
    } else if a.name is Some {
        a.name->0
    } else {
        "arg"@ + spec_dec(k as nat)
    }
}

/// The indexed argument list of an admitted function.
pub open spec fn spec_entry_args(
    args: Seq<ArgInfoModel>,
    ov: Option<Seq<Seq<char>>>,
    pkg: Seq<char>,
) -> Seq<ArgModel> {
    Seq::new(
        (args.len() - 1) as nat,
        |k: int|
            ArgModel {
                name: spec_arg_name(args[k + 1], ov, k),
                type_path: spec_normalize_type_path(args[k + 1].type_path, pkg),
                ownership: args[k + 1].ownership,
            },
    )
}

/// The entry built for an admitted function.
pub open spec fn spec_entry_of(
    f: FunctionInfoModel,
    ovs: Seq<MetadataModel>,
    pkg: Seq<char>,
) -> EntryModel
    recommends
        fn_admitted_shape(f),
{
    let t = spec_normalize_type_path(f.args[0].type_path, pkg);
    let m = spec_method_from_name(f.name->0);
    EntryModel {
        type_path: t,
        method: m,
        function_name: f.name->0,
        access: if f.args[0].ownership == Ownership::Mut {
            FunctionAccess::Write
        } else {
            FunctionAccess::Read
        },
        args: spec_entry_args(f.args, spec_override_names(ovs, t, m, pkg), pkg),
        ret: spec_normalize_type_path(f.ret, pkg),
        function: f.function,
    }
}

/// The part of admission that `spec_entry_of` relies on.
pub open spec fn fn_admitted_shape(f: FunctionInfoModel) -> bool {
    f.args.len() > 0 && f.name is Some
}

/// True when some entry carries the key `(t, m)`.
pub open spec fn model_has_key(entries: Seq<EntryModel>, t: Seq<char>, m: Seq<char>) -> bool {
    exists|i: int|
        0 <= i < entries.len() && entries[i].type_path == t && entries[i].method == m
}

/// The first entry carrying the key `(t, m)`, if any.
pub open spec fn spec_lookup(
    entries: Seq<EntryModel>,
    t: Seq<char>,
    m: Seq<char>,
) -> Option<EntryModel>
    decreases entries.len(),
{
    if entries.len() == 0 {
        None
    } else if entries[0].type_path == t && entries[0].method == m {
        Some(entries[0])
    } else {
        spec_lookup(entries.drop_first(), t, m)
    }
}

/// The key of the entry a function would build, if it is admitted.
pub open spec fn spec_fn_key(
    f: FunctionInfoModel,
    components: Seq<Seq<char>>,
    pkg: Seq<char>,
) -> Option<(Seq<char>, Seq<char>)> {
    if fn_admitted(f, components, pkg) {
        Some(
            (
                spec_normalize_type_path(f.args[0].type_path, pkg),
                spec_method_from_name(f.name->0),
            ),
        )
    } else {
        None
    }
}

/// The entries built from a registry scan, in registration order: each
/// admitted function adds its entry unless its key is already taken (the
/// first registered function wins).
pub open spec fn spec_build_entries(
    fns: Seq<FunctionInfoModel>,
    components: Seq<Seq<char>>,
    ovs: Seq<MetadataModel>,
    pkg: Seq<char>,
) -> Seq<EntryModel>
    decreases fns.len(),
{
    if fns.len() == 0 {
        Seq::empty()
    } else {
        let prev = spec_build_entries(fns.drop_last(), components, ovs, pkg);
        let f = fns.last();
        if fn_admitted(f, components, pkg) && !model_has_key(
            prev,
            spec_normalize_type_path(f.args[0].type_path, pkg),
            spec_method_from_name(f.name->0),
        ) {
            prev.push(spec_entry_of(f, ovs, pkg))
        } else {
            prev
        }
    }
}

/// The exported component type paths, normalized, first occurrence first,
/// without duplicates.
pub open spec fn spec_components(exported: Seq<Seq<char>>, pkg: Seq<char>) -> Seq<Seq<char>>
    decreases exported.len(),
{
    if exported.len() == 0 {
        Seq::empty()
    } else {
        let prev = spec_components(exported.drop_last(), pkg);
        let n = spec_normalize_type_path(exported.last(), pkg);
        if prev.contains(n) {
            prev
        } else {
            prev.push(n)
        }
    }
}

/// Index of component methods derived from the reflected function registry.
///
/// This is used by interface generation and by the host runtime to resolve
/// dynamic method calls.
pub struct FunctionIndex {
    entries: Vec<FunctionEntry>,
    components: Vec<String>,
}

/// Mathematical model of a `FunctionIndex`.
pub ghost struct IndexModel {
    pub entries: Seq<EntryModel>,
    pub components: Seq<Seq<char>>,
}

impl View for FunctionIndex {
    type V = IndexModel;

    closed spec fn view(&self) -> IndexModel {
        IndexModel { entries: self.entries.deep_view(), components: self.components.deep_view() }
    }
}

impl FunctionIndex {
    /// Every key appears on at most one entry.
    pub open spec fn wf(self) -> bool {
        forall|i: int, j: int|
            0 <= i < j < self@.entries.len() ==> !(self@.entries[i].type_path
                == self@.entries[j].type_path && self@.entries[i].method
                == self@.entries[j].method)
    }
}

proof fn lemma_build_keys(
    fns: Seq<FunctionInfoModel>,
    components: Seq<Seq<char>>,
    ovs: Seq<MetadataModel>,
    pkg: Seq<char>,
)
    ensures
        forall|i: int, j: int|
            0 <= i < j < spec_build_entries(fns, components, ovs, pkg).len()
                ==> !(#[trigger] spec_build_entries(fns, components, ovs, pkg)[i].type_path
                == #[trigger] spec_build_entries(fns, components, ovs, pkg)[j].type_path
                && spec_build_entries(fns, components, ovs, pkg)[i].method
                == spec_build_entries(fns, components, ovs, pkg)[j].method),
    decreases fns.len(),
{
    if fns.len() > 0 {
        lemma_build_keys(fns.drop_last(), components, ovs, pkg);
    }
}

fn component_list_contains(list: &Vec<String>, needle: &str) -> (r: bool)
    ensures
        r == list.deep_view().contains(needle@),
{
    let mut i: usize = 0;
    while i < list.len()
        invariant
            0 <= i <= list.len(),
            forall|k: int| 0 <= k < i ==> list.deep_view()[k] != needle@,
        decreases list.len() - i,
    {
        if str_eq(list[i].as_str(), needle) {
            assert(list.deep_view()[i as int] == needle@);
            return true;
        }
        i = i + 1;
    }
    false
}

fn entries_have_key(entries: &Vec<FunctionEntry>, t: &str, m: &str) -> (r: bool)
    ensures
        r == model_has_key(entries.deep_view(), t@, m@),
{
    let mut i: usize = 0;
    while i < entries.len()
        invariant
            0 <= i <= entries.len(),
            forall|k: int|
                0 <= k < i ==> !(entries.deep_view()[k].type_path == t@
                    && entries.deep_view()[k].method == m@),
        decreases entries.len() - i,
    {
        if str_eq(entries[i].type_path.as_str(), t) && str_eq(entries[i].method.as_str(), m) {
            assert(entries.deep_view()[i as int].type_path == t@);
            return true;
        }
        i = i + 1;
    }
    false
}

fn lookup_override<'a>(
    ovs: &'a Vec<WasvyMethodMetadata>,
    t: &str,
    m: &str,
    pkg: &str,
) -> (r: Option<&'a Vec<String>>)
    ensures
        match r {
            Some(names) => spec_override_names(ovs.deep_view(), t@, m@, pkg@) == Some(
                names.deep_view(),
            ),
            None => spec_override_names(ovs.deep_view(), t@, m@, pkg@) is None,
        },
{
    let mut i: usize = ovs.len();
    proof {
        assert(ovs.deep_view().take(ovs.len() as int) =~= ovs.deep_view());
    }
    while i > 0
        invariant
            0 <= i <= ovs.len(),
            spec_override_names(ovs.deep_view(), t@, m@, pkg@) == spec_override_names(
                ovs.deep_view().take(i as int),
                t@,
                m@,
                pkg@,
            ),
        decreases i,
    {
        i = i - 1;
        let key = normalize_type_path(ovs[i].type_path.as_str(), pkg);
        proof {
            assert(ovs.deep_view().take(i + 1).drop_last() =~= ovs.deep_view().take(i as int));
            assert(ovs.deep_view().take(i + 1).last() == ovs.deep_view()[i as int]);
        }
        if str_eq(key.as_str(), t) && str_eq(ovs[i].method.as_str(), m) {
            return Some(&ovs[i].arg_names);
        }
    }
    assert(ovs.deep_view().take(0) =~= Seq::<MetadataModel>::empty());
    None
}

fn build_entry_args(
    args: &Vec<ArgInfo>,
    ov: Option<&Vec<String>>,
    pkg: &str,
) -> (r: Vec<FunctionArg>)
    requires
        args.len() > 0,
    ensures
        r.deep_view() == spec_entry_args(
            args.deep_view(),
            match ov {
                Some(names) => Some(names.deep_view()),
                None => None,
            },
            pkg@,
        ),
{
    let ghost ov_model: Option<Seq<Seq<char>>> = match ov {
        Some(names) => Some(names.deep_view()),
        None => None,
    };
    let mut out: Vec<FunctionArg> = Vec::new();
    let mut k: usize = 0;
    while k < args.len() - 1
        invariant
            0 <= k <= args.len() - 1,
            args.len() > 0,
            ov_model == (match ov {
                Some(names) => Some(names.deep_view()),
                None => None,
            }),
            out.deep_view().len() == k,
            forall|j: int|
                0 <= j < k ==> out.deep_view()[j] == spec_entry_args(
                    args.deep_view(),
                    ov_model,
                    pkg@,
                )[j],
        decreases args.len() - 1 - k,
    {
        let a = &args[k + 1];
        let name: String = match ov {
            Some(names) if k < names.len() => names[k].clone(),
            _ => match &a.name {
                Some(n) => n.clone(),
                None => {
                    let mut s = String::from_str("arg");
                    let d = usize_to_dec_string(k);
                    s.append(d.as_str());
                    s
                },
            },
        };
        let type_path = normalize_type_path(a.type_path.as_str(), pkg);
        let ghost prev_dv = out.deep_view();
        let arg = FunctionArg { name, type_path, ownership: a.ownership };
        out.push(arg);
        proof {
            assert(out.deep_view() =~= prev_dv.push(arg@));
            assert(out.deep_view()[k as int] == spec_entry_args(args.deep_view(), ov_model, pkg@)[
                k as int
            ]);
        }
        k = k + 1;
    }
    assert(out.deep_view() =~= spec_entry_args(args.deep_view(), ov_model, pkg@));
    out
}

impl FunctionIndex {
    /// Build a fresh index from the exported component type paths, the
    /// reflected function registry and the submitted method metadata.
    ///
    /// `pkg` is the package name used to normalize build-tool-internal type
    /// paths.
    pub fn build(
        exported: &Vec<String>,
        functions: &Vec<FunctionInfo>,
        overrides: &Vec<WasvyMethodMetadata>,
        pkg: &str,
    ) -> (r: FunctionIndex)
        ensures
            r@.components == spec_components(exported.deep_view(), pkg@),
            r@.entries == spec_build_entries(
                functions.deep_view(),
                spec_components(exported.deep_view(), pkg@),
                overrides.deep_view(),
                pkg@,
            ),
            r.wf(),
    {
        let mut components: Vec<String> = Vec::new();
        let mut i: usize = 0;
        while i < exported.len()
            invariant
                0 <= i <= exported.len(),
                components.deep_view() == spec_components(
                    exported.deep_view().take(i as int),
                    pkg@,
                ),
            decreases exported.len() - i,
        {
            let n = normalize_type_path(exported[i].as_str(), pkg);
            proof {
                assert(exported.deep_view().take(i + 1).drop_last() =~= exported.deep_view().take(
                    i as int,
                ));
                assert(exported.deep_view().take(i + 1).last() == exported.deep_view()[i as int]);
            }
            if !component_list_contains(&components, n.as_str()) {
                components.push(n);
            }
            i = i + 1;
        }
        proof {
            assert(exported.deep_view().take(exported.len() as int) =~= exported.deep_view());
        }
        let ghost comps_model = spec_components(exported.deep_view(), pkg@);

        let mut entries: Vec<FunctionEntry> = Vec::new();
        let mut j: usize = 0;
        while j < functions.len()
            invariant
                0 <= j <= functions.len(),
                comps_model == spec_components(exported.deep_view(), pkg@),
                components.deep_view() == comps_model,
                entries.deep_view() == spec_build_entries(
                    functions.deep_view().take(j as int),
                    comps_model,
                    overrides.deep_view(),
                    pkg@,
                ),
            decreases functions.len() - j,
        {
            proof {
                assert(functions.deep_view().take(j + 1).drop_last() =~= functions.deep_view()
                    .take(j as int));
                assert(functions.deep_view().take(j + 1).last() == functions.deep_view()[j as int]);
            }
            let f = &functions[j];
            if !f.overloaded && f.args.len() > 0 {
                let receiver = &f.args[0];
                let is_ref = match receiver.ownership {
                    Ownership::Ref => true,
                    Ownership::Mut => true,
                    Ownership::Owned => false,
                };
                if is_ref {
                    let receiver_type_path = normalize_type_path(receiver.type_path.as_str(), pkg);
                    if component_list_contains(&components, receiver_type_path.as_str()) {
                        if let Some(name) = &f.name {
                            let method = method_from_name(name.as_str());
                            if method.unicode_len() > 0 {
                                if !entries_have_key(&entries, receiver_type_path.as_str(), method)
                                {
                                    let ov = lookup_override(
                                        overrides,
                                        receiver_type_path.as_str(),
                                        method,
                                        pkg,
                                    );
                                    let args = build_entry_args(&f.args, ov, pkg);
                                    let access = match receiver.ownership {
                                        Ownership::Mut => FunctionAccess::Write,
                                        _ => FunctionAccess::Read,
                                    };
                                    let entry = FunctionEntry {
                                        type_path: receiver_type_path,
                                        method: String::from_str(method),
                                        function_name: name.clone(),
                                        access,
                                        args,
                                        ret: normalize_type_path(f.ret.as_str(), pkg),
                                        function: f.function,
                                    };
                                    proof {
                                        assert(fn_admitted(
                                            functions.deep_view()[j as int],
                                            comps_model,
                                            pkg@,
                                        ));
                                        assert(entry@ == spec_entry_of(
                                            functions.deep_view()[j as int],
                                            overrides.deep_view(),
                                            pkg@,
                                        ));
                                    }
                                    entries.push(entry);
                                }
                            }
                        }
                    }
                }
            }
            proof {
                assert(entries.deep_view() =~= spec_build_entries(
                    functions.deep_view().take(j + 1),
                    comps_model,
                    overrides.deep_view(),
                    pkg@,
                ));
            }
            j = j + 1;
        }
        proof {
            assert(functions.deep_view().take(functions.len() as int) =~= functions.deep_view());
            lemma_build_keys(functions.deep_view(), comps_model, overrides.deep_view(), pkg@);
        }
        FunctionIndex { entries, components }
    }

    /// The exported component type paths, normalized, in first-occurrence
    /// order.
    pub fn components(&self) -> (r: &Vec<String>)
        ensures
            r.deep_view() == self@.components,
    {
        &self.components
    }

    /// All indexed methods, in registration order.
    pub fn entries(&self) -> (r: &Vec<FunctionEntry>)
        ensures
            r.deep_view() == self@.entries,
    {
        &self.entries
    }

    /// All indexed methods of one component type path, in registration
    /// order.
    pub fn methods_for<'a>(&'a self, type_path: &str) -> (r: Vec<&'a FunctionEntry>)
        ensures
            r@.len() == spec_methods_for(self@.entries, type_path@).len(),
            forall|k: int|
                0 <= k < r@.len() ==> (#[trigger] r@[k]@) == spec_methods_for(
                    self@.entries,
                    type_path@,
                )[k],
    {
        let mut out: Vec<&FunctionEntry> = Vec::new();
        let mut i: usize = 0;
        while i < self.entries.len()
            invariant
                0 <= i <= self.entries@.len(),
                out@.len() == spec_methods_for(self@.entries.take(i as int), type_path@).len(),
                forall|k: int|
                    0 <= k < out@.len() ==> (#[trigger] out@[k]@) == spec_methods_for(
                        self@.entries.take(i as int),
                        type_path@,
                    )[k],
            decreases self.entries@.len() - i,
        {
            proof {
                assert(self@.entries.take(i + 1).drop_last() =~= self@.entries.take(i as int));
                assert(self@.entries.take(i + 1).last() == self@.entries[i as int]);
            }
            let e = &self.entries[i];
            proof {
                assert(e@ == self@.entries[i as int]);
            }
            if str_eq(e.type_path.as_str(), type_path) {
                let ghost prev = out@;
                out.push(e);
                proof {
                    assert(out@[prev.len() as int]@ == self@.entries[i as int]);
                    assert forall|k: int|
                        0 <= k < out@.len() implies (#[trigger] out@[k]@) == spec_methods_for(
                        self@.entries.take(i + 1),
                        type_path@,
                    )[k] by {
                        if k < prev.len() {
                            assert(out@[k] == prev[k]);
                            assert(spec_methods_for(self@.entries.take(i + 1), type_path@)[k]
                                == spec_methods_for(self@.entries.take(i as int), type_path@)[
                                k
                            ]);
                        }
                    }
                }
            }
            i = i + 1;
        }
        proof {
            assert(self@.entries.take(self.entries@.len() as int) =~= self@.entries);
        }
        out
    }

    /// Lookup a specific method entry.
    pub fn get<'a>(&'a self, type_path: &str, method: &str) -> (r: Option<&'a FunctionEntry>)
        ensures
            match r {
                Some(e) => spec_lookup(self@.entries, type_path@, method@) == Some(e@),
                None => spec_lookup(self@.entries, type_path@, method@) is None,
            },
    {
        let mut i: usize = 0;
        proof {
            assert(self@.entries.skip(0) =~= self@.entries);
        }
        while i < self.entries.len()
            invariant
                0 <= i <= self.entries.len(),
                spec_lookup(self@.entries, type_path@, method@) == spec_lookup(
                    self@.entries.skip(i as int),
                    type_path@,
                    method@,
                ),
            decreases self.entries.len() - i,
        {
            proof {
                assert(self@.entries.skip(i as int).drop_first() =~= self@.entries.skip(i + 1));
                assert(self@.entries.skip(i as int)[0] == self@.entries[i as int]);
            }
            let e = &self.entries[i];
            if str_eq(e.type_path.as_str(), type_path) && str_eq(e.method.as_str(), method) {
                return Some(e);
            }
            i = i + 1;
        }
        proof {
            assert(self@.entries.skip(self.entries.len() as int) =~= Seq::<EntryModel>::empty());
        }
        None
    }
}

/// The entries carrying one type path, in registration order.
pub open spec fn spec_methods_for(entries: Seq<EntryModel>, t: Seq<char>) -> Seq<EntryModel>
    decreases entries.len(),
{
    if entries.len() == 0 {
        Seq::empty()
    } else {
        let prev = spec_methods_for(entries.drop_last(), t);
        if entries.last().type_path == t {
            prev.push(entries.last())
        } else {
            prev
        }
    }
}

/// A key `(t, m)` is resolvable only through an admitted function: every
/// entry of a built index is the entry of some registered function that
/// passed every exclusion rule. In particular a function registered with
/// several signatures never becomes resolvable.
pub proof fn lemma_entries_from_admitted(
    fns: Seq<FunctionInfoModel>,
    components: Seq<Seq<char>>,
    ovs: Seq<MetadataModel>,
    pkg: Seq<char>,
)
    ensures
        forall|i: int|
            0 <= i < spec_build_entries(fns, components, ovs, pkg).len() ==> exists|j: int|
                0 <= j < fns.len() && fn_admitted(fns[j], components, pkg)
                    && #[trigger] spec_build_entries(fns, components, ovs, pkg)[i]
                    == spec_entry_of(fns[j], ovs, pkg),
    decreases fns.len(),
{
    if fns.len() > 0 {
        lemma_entries_from_admitted(fns.drop_last(), components, ovs, pkg);
        let prev = spec_build_entries(fns.drop_last(), components, ovs, pkg);
        let all = spec_build_entries(fns, components, ovs, pkg);
        assert forall|i: int| 0 <= i < all.len() implies exists|j: int|
            0 <= j < fns.len() && fn_admitted(fns[j], components, pkg) && #[trigger] all[i]
                == spec_entry_of(fns[j], ovs, pkg) by {
            if i < prev.len() {
                let j = choose|j: int|
                    0 <= j < fns.drop_last().len() && fn_admitted(
                        fns.drop_last()[j],
                        components,
                        pkg,
                    ) && prev[i] == spec_entry_of(fns.drop_last()[j], ovs, pkg);
                assert(fns.drop_last()[j] == fns[j]);
                assert(all[i] == spec_entry_of(fns[j], ovs, pkg));
            } else {
                assert(all[i] == spec_entry_of(fns[fns.len() - 1], ovs, pkg));
            }
        }
    }
}

/// Overload exclusion: when every registered function that could claim the
/// key `(t, m)` is overloaded, the key resolves to nothing.
pub proof fn lemma_overloaded_unresolvable(
    fns: Seq<FunctionInfoModel>,
    components: Seq<Seq<char>>,
    ovs: Seq<MetadataModel>,
    pkg: Seq<char>,
    t: Seq<char>,
    m: Seq<char>,
)
    requires
        forall|j: int|
            0 <= j < fns.len() && spec_fn_key(fns[j], components, pkg) == Some((t, m))
                ==> fns[j].overloaded,
    ensures
        spec_lookup(spec_build_entries(fns, components, ovs, pkg), t, m) is None,
{
    let entries = spec_build_entries(fns, components, ovs, pkg);
    lemma_entries_from_admitted(fns, components, ovs, pkg);
    assert forall|i: int| 0 <= i < entries.len() implies !(entries[i].type_path == t
        && entries[i].method == m) by {
        let j = choose|j: int|
            0 <= j < fns.len() && fn_admitted(fns[j], components, pkg) && entries[i]
                == spec_entry_of(fns[j], ovs, pkg);
        if entries[i].type_path == t && entries[i].method == m {
            assert(spec_fn_key(fns[j], components, pkg) == Some((t, m)));
        }
    }
    lemma_lookup_none(entries, t, m);
}

proof fn lemma_lookup_none(entries: Seq<EntryModel>, t: Seq<char>, m: Seq<char>)
    requires
        forall|i: int|
            0 <= i < entries.len() ==> !(#[trigger] entries[i].type_path == t && entries[i].method
                == m),
    ensures
        spec_lookup(entries, t, m) is None,
    decreases entries.len(),
{
    if entries.len() > 0 {
        assert(entries.drop_first() =~= entries.skip(1));
        assert(forall|i: int|
            0 <= i < entries.drop_first().len() ==> entries.drop_first()[i] == entries[i + 1]);
        lemma_lookup_none(entries.drop_first(), t, m);
    }
}

/// What a JSON parameter document parses into: `Some(Some(..))` with the
/// JSON text of each element for a top-level array, `Some(None)` for the
/// document `null`, and `None` for any other or malformed document.
pub uninterp spec fn json_params(s: Seq<char>) -> Option<Option<Seq<Seq<char>>>>;

/// Parses a JSON parameter document and splits an array into the JSON text
/// of its elements, handing the `null` case back for the caller to decide.
///
/// Relies on serde_json::from_str to parse the document and on serde_json's
/// value rendering for the elements; both depend on the text alone.
#[verifier::external_body]
fn parse_json_array(s: &str) -> (r: Option<Option<Vec<String>>>)
    ensures
        (match (r, json_params(s@)) {
            (Some(Some(v)), Some(Some(m))) => v.deep_view() == m,
            (Some(None), Some(None)) => true,
            (None, None) => true,
            _ => false,
        }),
{
    match serde_json::from_str::<serde_json::Value>(s) {
        Ok(serde_json::Value::Null) => Some(None),
        Ok(serde_json::Value::Array(vals)) => {
            let mut out = Vec::with_capacity(vals.len());
            for v in &vals {
                out.push(v.to_string());
            }
            Some(Some(out))
        },
        _ => None,
    }
}

/// The parameter list carried by a parameter document: an empty or
/// whitespace-only document and the document `null` carry no parameters;
/// an array carries its elements; anything else is malformed.
pub open spec fn spec_params_of(s: Seq<char>) -> Option<Seq<Seq<char>>> {
    if spec_trim(s).len() == 0 {
        Some(Seq::empty())
    } else {
        match json_params(spec_trim(s)) {
            Some(Some(elems)) => Some(elems),
            Some(None) => Some(Seq::empty()),
            None => None,
        }
    }
}

/// One argument of a planned invocation: the declared type path and passing
/// mode together with the JSON text to build the value from.
#[derive(Debug)]
pub struct PlannedArg {
    pub type_path: String,
    pub ownership: Ownership,
    pub json: String,
}

/// Mathematical model of a `PlannedArg`.
pub ghost struct PlannedArgModel {
    pub type_path: Seq<char>,
    pub ownership: Ownership,
    pub json: Seq<char>,
}

impl View for PlannedArg {
    type V = PlannedArgModel;

    open spec fn view(&self) -> PlannedArgModel {
        PlannedArgModel {
            type_path: self.type_path@,
            ownership: self.ownership,
            json: self.json@,
        }
    }
}

impl DeepView for PlannedArg {
    type V = PlannedArgModel;

    open spec fn deep_view(&self) -> PlannedArgModel {
        self.view()
    }
}

/// A fully checked invocation, ready for the host to execute: the callable
/// handle and one planned argument per declared argument, in declared order
/// and with the declared passing mode.
#[derive(Debug)]
pub struct CallPlan {
    pub function: u64,
    pub access: FunctionAccess,
    pub args: Vec<PlannedArg>,
}

/// Mathematical model of a `CallPlan`.
pub ghost struct PlanModel {
    pub function: u64,
    pub access: FunctionAccess,
    pub args: Seq<PlannedArgModel>,
}

impl View for CallPlan {
    type V = PlanModel;

    open spec fn view(&self) -> PlanModel {
        PlanModel { function: self.function, access: self.access, args: self.args.deep_view() }
    }
}

/// Why an invocation was rejected.
#[derive(Clone, Copy, Debug, PartialEq, Eq, Structural)]
pub enum InvokeError {
    /// No entry carries the requested `(type path, method)` key.
    UnknownMethod,
    /// The entry requires exclusive access but the target handle is shared.
    NeedsMutableAccess,
    /// The parameter document is not empty, `null` or a JSON array.
    MalformedParams,
    /// The parameter count does not match the declared argument count.
    ArityMismatch { expected: usize, got: usize },
}

/// The outcome of planning an invocation of `(t, m)` on a `target` handle
/// with parameter document `params`.
pub open spec fn spec_plan_invoke(
    idx: IndexModel,
    t: Seq<char>,
    m: Seq<char>,
    target: MethodTarget,
    params: Seq<char>,
) -> Result<PlanModel, InvokeError> {
    match spec_lookup(idx.entries, t, m) {
        None => Err(InvokeError::UnknownMethod),
        Some(e) => if e.access == FunctionAccess::Write && target == MethodTarget::Read {
            Err(InvokeError::NeedsMutableAccess)
        } else {
            match spec_params_of(params) {
                None => Err(InvokeError::MalformedParams),
                Some(args) => if args.len() != e.args.len() {
                    Err(
                        InvokeError::ArityMismatch {
                            expected: e.args.len() as usize,
                            got: args.len() as usize,
                        },
                    )
                } else {
                    Ok(
                        PlanModel {
                            function: e.function,
                            access: e.access,
                            args: Seq::new(
                                args.len(),
                                |i: int|
                                    PlannedArgModel {
                                        type_path: e.args[i].type_path,
                                        ownership: e.args[i].ownership,
                                        json: args[i],
                                    },
                            ),
                        },
                    )
                },
            }
        },
    }
}

impl FunctionIndex {
    /// Check an invocation and assemble its call plan.
    ///
    /// The plan is returned exactly when the method resolves, the access
    /// gate passes, the parameter document parses and the arity matches; the
    /// planned arguments keep the declared order, type paths and passing
    /// modes, paired with the JSON text of each parameter.
    pub fn plan_invoke(
        &self,
        type_path: &str,
        method: &str,
        target: MethodTarget,
        params_json: &str,
    ) -> (r: Result<CallPlan, InvokeError>)
        ensures
            match r {
                Ok(plan) => spec_plan_invoke(self@, type_path@, method@, target, params_json@)
                    == Ok::<PlanModel, InvokeError>(plan@),
                Err(e) => spec_plan_invoke(self@, type_path@, method@, target, params_json@)
                    == Err::<PlanModel, InvokeError>(e),
            },
    {
        let entry = match self.get(type_path, method) {
            Some(e) => e,
            None => {
                return Err(InvokeError::UnknownMethod);
            },
        };
        match (entry.access, target) {
            (FunctionAccess::Write, MethodTarget::Read) => {
                return Err(InvokeError::NeedsMutableAccess);
            },
            _ => {},
        }
        let trimmed = trim_ws(params_json);
        let args: Vec<String> = if trimmed.unicode_len() == 0 {
            Vec::new()
        } else {
            match parse_json_array(trimmed) {
                Some(Some(v)) => v,
                // `null` asks for a call with no parameters.
                Some(None) => Vec::new(),
                None => {
                    return Err(InvokeError::MalformedParams);
                },
            }
        };
        if args.len() != entry.args.len() {
            return Err(InvokeError::ArityMismatch { expected: entry.args.len(), got: args.len() });
        }
        let ghost args_model = args.deep_view();
        let mut planned: Vec<PlannedArg> = Vec::new();
        let mut i: usize = 0;
        while i < args.len()
            invariant
                0 <= i <= args.len(),
                args.len() == entry.args.len(),
                args.deep_view() == args_model,
                planned.deep_view().len() == i,
                forall|k: int|
                    0 <= k < i ==> planned.deep_view()[k] == (PlannedArgModel {
                        type_path: entry@.args[k].type_path,
                        ownership: entry@.args[k].ownership,
                        json: args_model[k],
                    }),
            decreases args.len() - i,
        {
            let ghost prev_dv = planned.deep_view();
            let p = PlannedArg {
                type_path: entry.args[i].type_path.clone(),
                ownership: entry.args[i].ownership,
                json: args[i].clone(),
            };
            planned.push(p);
            proof {
                assert(planned.deep_view() =~= prev_dv.push(p@));
            }
            i = i + 1;
        }
        let plan = CallPlan { function: entry.function, access: entry.access, args: planned };
        proof {
            let expected = spec_plan_invoke(self@, type_path@, method@, target, params_json@);
            assert(plan@.args =~= expected->Ok_0.args);
        }
        Ok(plan)
    }
}

/// Serialize the raw outcome of an executed invocation: a unit result
/// renders as `null`, any other result is already serialized.
pub fn finish_invoke(result: Option<String>) -> (r: String)
    ensures
        r@ == (match result {
            Some(s) => s@,
            None => "null"@,
        }),
{
    match result {
        Some(s) => s,
        None => String::from_str("null"),
    }
}

/// The access gate. Planning an invocation of a `Write` entry through a
/// read-only target always fails with `NeedsMutableAccess`; planning an
/// invocation of a `Read` entry proceeds identically for either target kind
/// and never asks for mutable access.
pub proof fn lemma_access_gate(
    idx: IndexModel,
    t: Seq<char>,
    m: Seq<char>,
    params: Seq<char>,
)
    ensures
        (match spec_lookup(idx.entries, t, m) {
            Some(e) => (e.access == FunctionAccess::Write ==> spec_plan_invoke(
                idx,
                t,
                m,
                MethodTarget::Read,
                params,
            ) == Err::<PlanModel, InvokeError>(InvokeError::NeedsMutableAccess)) && (e.access
                == FunctionAccess::Read ==> spec_plan_invoke(idx, t, m, MethodTarget::Read, params)
                == spec_plan_invoke(idx, t, m, MethodTarget::Write, params) && spec_plan_invoke(
                idx,
                t,
                m,
                MethodTarget::Read,
                params,
            ) != Err::<PlanModel, InvokeError>(InvokeError::NeedsMutableAccess)),
            None => true,
        }),
{
}

} // verus!
