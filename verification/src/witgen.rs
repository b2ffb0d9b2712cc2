//! Interface-description generation for exported components.
//!
//! Each exported component becomes a resource whose methods mirror the
//! indexed reflected functions; argument and return types map from Rust
//! type paths to interface types, with `Option` and `Vec` mapping to their
//! container types. Resource names are the kebab-cased type names, kept
//! unique by a numeric suffix.

use vstd::prelude::*;
use vstd::string::*;

use crate::methods::{ArgModel, FunctionEntry};
use crate::paths::{
    after_last, first_match, has_prefix, last_match, spec_dec, spec_lower_char, spec_trim,
    find_first, find_last, lower_char, push_char, str_eq, suffix_after_last, trim_ws,
    usize_to_dec_string,
};

verus! {

/// The last path segment of a type path.
pub open spec fn spec_strip_path(ty: Seq<char>) -> Seq<char> {
    after_last(ty, "::"@)
}

/// The last path segment of a type path.
pub fn strip_path<'a>(ty: &'a str) -> (r: &'a str)
    ensures
        r@ == spec_strip_path(ty@),
{
    suffix_after_last(ty, "::")
}

/// `s` without any space characters.
pub open spec fn spec_remove_spaces(s: Seq<char>) -> Seq<char>
    decreases s.len(),
{
    if s.len() == 0 {
        Seq::empty()
    } else {
        let prev = spec_remove_spaces(s.drop_last());
        if s.last() == ' ' {
            prev
        } else {
            prev.push(s.last())
        }
    }
}

fn remove_spaces(s: &str) -> (r: String)
    ensures
        r@ == spec_remove_spaces(s@),
{
    let n: usize = s.unicode_len();
    let mut out = String::new();
    let mut i: usize = 0;
    while i < n
        invariant
            0 <= i <= n,
            n == s@.len(),
            out@ =~= spec_remove_spaces(s@.take(i as int)),
        decreases n - i,
    {
        proof {
            assert(s@.take(i + 1).drop_last() =~= s@.take(i as int));
            assert(s@.take(i + 1).last() == s@[i as int]);
        }
        let c = s.get_char(i);
        if c != ' ' {
            push_char(&mut out, c);
        }
        i = i + 1;
    }
    proof {
        assert(s@.take(n as int) =~= s@);
    }
    out
}

/// Length never grows when removing spaces.
proof fn lemma_remove_spaces_len(s: Seq<char>)
    ensures
        spec_remove_spaces(s).len() <= s.len(),
    decreases s.len(),
{
    if s.len() > 0 {
        lemma_remove_spaces_len(s.drop_last());
    }
}

/// The inner type of `Name<inner>` when the simple name of `ty` starts
/// with `Name` and carries a non-trivial angle-bracketed argument.
pub open spec fn spec_strip_generic(ty: Seq<char>, name: Seq<char>) -> Option<Seq<char>> {
    let simple = spec_strip_path(ty);
    if !has_prefix(simple, name) {
        None
    } else {
        let start = first_match(simple, "<"@);
        let end = last_match(simple, ">"@);
        if start < 0 || end < 0 || end <= start + 1 {
            None
        } else {
            Some(simple.subrange(start + 1, end))
        }
    }
}

fn strip_generic<'a>(ty: &'a str, name: &'a str) -> (r: Option<&'a str>)
    ensures
        match r {
            Some(inner) => spec_strip_generic(ty@, name@) == Some(inner@),
            None => spec_strip_generic(ty@, name@) is None,
        },
{
    let simple = strip_path(ty);
    let _simple_len: usize = simple.unicode_len();
    match crate::paths::strip_prefix_str(simple, name) {
        Some(_) => {},
        None => {
            return None;
        },
    }
    proof {
        reveal_strlit("<");
        reveal_strlit(">");
    }
    let start: usize = match find_first(simple, "<") {
        Some(i) => i,
        None => {
            return None;
        },
    };
    let end: usize = match find_last(simple, ">") {
        Some(i) => i,
        None => {
            return None;
        },
    };
    if end <= start + 1 {
        return None;
    }
    let inner = simple.substring_char(start + 1, end);
    proof {
        assert(inner@ =~= spec_strip_path(ty@).subrange(start + 1, end as int));
    }
    Some(inner)
}

/// The interface type a Rust type path maps to, with `fuel` bounding the
/// container nesting depth. Primitive types map to their interface
/// spellings, `Option` and `Vec` to their container types; anything else
/// has no interface representation.
pub open spec fn spec_map_type_rec(ty: Seq<char>, fuel: int) -> Option<Seq<char>>
    decreases fuel,
{
    if fuel <= 0 {
        None
    } else {
        let t0 = spec_trim(ty);
        if t0 == "()"@ {
            Some("()"@)
        } else {
            let t = spec_remove_spaces(t0);
            match spec_strip_generic(t, "Option"@) {
                Some(inner) => match spec_map_type_rec(inner, fuel - 1) {
                    Some(m) => Some("option<"@ + m + ">"@),
                    None => None,
                },
                None => match spec_strip_generic(t, "Vec"@) {
                    Some(inner) => match spec_map_type_rec(inner, fuel - 1) {
                        Some(m) => Some("list<"@ + m + ">"@),
                        None => None,
                    },
                    None => spec_map_primitive(spec_strip_path(t)),
                },
            }
        }
    }
}

/// The interface spelling of a primitive type name.
pub open spec fn spec_map_primitive(simple: Seq<char>) -> Option<Seq<char>> {
    if simple == "bool"@ {
        Some("bool"@)
    } else if simple == "u8"@ {
        Some("u8"@)
    } else if simple == "u16"@ {
        Some("u16"@)
    } else if simple == "u32"@ {
        Some("u32"@)
    } else if simple == "u64"@ {
        Some("u64"@)
    } else if simple == "i8"@ {
        Some("s8"@)
    } else if simple == "i16"@ {
        Some("s16"@)
    } else if simple == "i32"@ {
        Some("s32"@)
    } else if simple == "i64"@ {
        Some("s64"@)
    } else if simple == "f32"@ {
        Some("f32"@)
    } else if simple == "f64"@ {
        Some("f64"@)
    } else if simple == "String"@ || simple == "str"@ {
        Some("string"@)
    } else {
        None
    }
}

fn map_primitive(simple: &str) -> (r: Option<String>)
    ensures
        match r {
            Some(m) => spec_map_primitive(simple@) == Some(m@),
            None => spec_map_primitive(simple@) is None,
        },
{
    if str_eq(simple, "bool") {
        return Some(String::from_str("bool"));
    }
    if str_eq(simple, "u8") {
        return Some(String::from_str("u8"));
    }
    if str_eq(simple, "u16") {
        return Some(String::from_str("u16"));
    }
    if str_eq(simple, "u32") {
        return Some(String::from_str("u32"));
    }
    if str_eq(simple, "u64") {
        return Some(String::from_str("u64"));
    }
    if str_eq(simple, "i8") {
        return Some(String::from_str("s8"));
    }
    if str_eq(simple, "i16") {
        return Some(String::from_str("s16"));
    }
    if str_eq(simple, "i32") {
        return Some(String::from_str("s32"));
    }
    if str_eq(simple, "i64") {
        return Some(String::from_str("s64"));
    }
    if str_eq(simple, "f32") {
        return Some(String::from_str("f32"));
    }
    if str_eq(simple, "f64") {
        return Some(String::from_str("f64"));
    }
    if str_eq(simple, "String") || str_eq(simple, "str") {
        return Some(String::from_str("string"));
    }
    None
}

fn map_type_rec(ty: &str, fuel: usize) -> (r: Option<String>)
    ensures
        match r {
            Some(m) => spec_map_type_rec(ty@, fuel as int) == Some(m@),
            None => spec_map_type_rec(ty@, fuel as int) is None,
        },
    decreases fuel,
{
    if fuel == 0 {
        return None;
    }
    let t0 = trim_ws(ty);
    if str_eq(t0, "()") {
        return Some(String::from_str("()"));
    }
    let t = remove_spaces(t0);
    match strip_generic(t.as_str(), "Option") {
        Some(inner) => {
            return match map_type_rec(inner, fuel - 1) {
                Some(m) => {
                    let mut out = String::from_str("option<");
                    out.append(m.as_str());
                    out.append(">");
                    proof {
                        assert(out@ =~= "option<"@ + m@ + ">"@);
                    }
                    Some(out)
                },
                None => None,
            };
        },
        None => {},
    }
    match strip_generic(t.as_str(), "Vec") {
        Some(inner) => {
            return match map_type_rec(inner, fuel - 1) {
                Some(m) => {
                    let mut out = String::from_str("list<");
                    out.append(m.as_str());
                    out.append(">");
                    proof {
                        assert(out@ =~= "list<"@ + m@ + ">"@);
                    }
                    Some(out)
                },
                None => None,
            };
        },
        None => {},
    }
    map_primitive(strip_path(t.as_str()))
}

/// The interface type a Rust type path maps to, if any. The recursion
/// into container arguments is fuelled by the path's length, which every
/// nesting level strictly shrinks, so the bound is never the limit.
pub open spec fn spec_map_type(ty: Seq<char>) -> Option<Seq<char>> {
    spec_map_type_rec(ty, ty.len() as int)
}

/// Map a Rust type path to its interface type, if it has one.
pub fn map_type(ty: &str) -> (r: Option<String>)
    ensures
        match r {
            Some(m) => spec_map_type(ty@) == Some(m@),
            None => spec_map_type(ty@) is None,
        },
{
    let n: usize = ty.unicode_len();
    map_type_rec(ty, n)
}

/// The short resource name of a component: the last segment of its type
/// path.
pub open spec fn spec_type_path_to_name(ty: Seq<char>) -> Seq<char> {
    after_last(ty, "::"@)
}

/// The short resource name of a component.
pub fn type_path_to_name<'a>(type_path: &'a str) -> (r: &'a str)
    ensures
        r@ == spec_type_path_to_name(type_path@),
{
    suffix_after_last(type_path, "::")
}

/// The argument list text of a method signature: `name: type`, comma
/// separated, each type mapped; nothing when any type has no interface
/// representation.
pub open spec fn spec_args_text(args: Seq<ArgModel>, i: int) -> Option<Seq<char>>
    decreases args.len() - i,
{
    if i < 0 || i >= args.len() {
        Some(Seq::empty())
    } else {
        match spec_map_type(args[i].type_path) {
            None => None,
            Some(t) => match spec_args_text(args, i + 1) {
                None => None,
                Some(rest) => Some(
                    (if i > 0 {
                        ", "@
                    } else {
                        Seq::<char>::empty()
                    }) + args[i].name + ": "@ + t + rest,
                ),
            },
        }
    }
}

/// The rendered signature of one indexed method: the method name, its
/// mapped arguments, and the mapped return type unless the method returns
/// unit.
pub open spec fn spec_render_method(
    method: Seq<char>,
    args: Seq<ArgModel>,
    ret: Seq<char>,
) -> Option<Seq<char>> {
    match spec_args_text(args, 0) {
        None => None,
        Some(argtext) => match spec_map_type(ret) {
            None => None,
            Some(r) => if r == "()"@ {
                Some(method + ": func("@ + argtext + ")"@)
            } else {
                Some(method + ": func("@ + argtext + ") -> "@ + r)
            },
        },
    }
}

/// Render one indexed method into its interface signature.
pub fn render_method(entry: &FunctionEntry) -> (r: Option<String>)
    ensures
        match r {
            Some(text) => spec_render_method(entry@.method, entry@.args, entry@.ret) == Some(
                text@,
            ),
            None => spec_render_method(entry@.method, entry@.args, entry@.ret) is None,
        },
{
    let mut argtext = String::new();
    let n = entry.args.len();
    let mut i: usize = 0;
    let mut ok = true;
    while i < n && ok
        invariant
            0 <= i <= n,
            n == entry@.args.len(),
            ok ==> (match spec_args_text(entry@.args, 0) {
                Some(full) => match spec_args_text(entry@.args, i as int) {
                    Some(rest) => full == argtext@ + rest,
                    None => false,
                },
                None => spec_args_text(entry@.args, i as int) is None,
            }),
            !ok ==> spec_args_text(entry@.args, 0) is None,
        decreases n - i + (if ok {
            1int
        } else {
            0int
        }),
    {
        match map_type(entry.args[i].type_path.as_str()) {
            Some(t) => {
                let ghost pre = argtext@;
                if i > 0 {
                    argtext.append(", ");
                }
                argtext.append(entry.args[i].name.as_str());
                argtext.append(": ");
                argtext.append(t.as_str());
                proof {
                    assert(entry@.args[i as int] == entry.args@[i as int]@);
                    assert(argtext@ =~= pre + ((if i > 0 {
                        ", "@
                    } else {
                        Seq::<char>::empty()
                    }) + entry@.args[i as int].name + ": "@ + t@));
                    if spec_args_text(entry@.args, 0) is Some {
                        match spec_args_text(entry@.args, i + 1) {
                            Some(rest2) => {
                                assert(spec_args_text(entry@.args, i as int) == Some(
                                    ((if i > 0 {
                                        ", "@
                                    } else {
                                        Seq::<char>::empty()
                                    }) + entry@.args[i as int].name + ": "@ + t@) + rest2,
                                ));
                                assert(spec_args_text(entry@.args, 0)->0 =~= argtext@ + rest2);
                            },
                            None => {
                                assert(spec_args_text(entry@.args, i as int) is None);
                            },
                        }
                    }
                }
            },
            None => {
                proof {
                    assert(entry@.args[i as int] == entry.args@[i as int]@);
                    assert(spec_args_text(entry@.args, i as int) is None);
                    lemma_args_text_none(entry@.args, i as int);
                }
                ok = false;
            },
        }
        if ok {
            i = i + 1;
        }
    }
    if !ok {
        return None;
    }
    proof {
        assert(spec_args_text(entry@.args, n as int) == Some(Seq::<char>::empty()));
        if spec_args_text(entry@.args, 0) is Some {
            assert(spec_args_text(entry@.args, 0)->0 =~= argtext@ + Seq::<char>::empty());
            assert(spec_args_text(entry@.args, 0)->0 =~= argtext@);
        }
    }
    let ret = match map_type(entry.ret.as_str()) {
        Some(rt) => rt,
        None => {
            return None;
        },
    };
    proof {
        assert(spec_args_text(entry@.args, 0) == Some(argtext@));
    }
    let mut out = String::new();
    out.append(entry.method.as_str());
    out.append(": func(");
    out.append(argtext.as_str());
    if str_eq(ret.as_str(), "()") {
        out.append(")");
        proof {
            assert(out@ =~= entry@.method + ": func("@ + argtext@ + ")"@);
        }
    } else {
        out.append(") -> ");
        out.append(ret.as_str());
        proof {
            assert(out@ =~= entry@.method + ": func("@ + argtext@ + ") -> "@ + ret@);
        }
    }
    Some(out)
}

proof fn lemma_args_text_none(args: Seq<ArgModel>, i: int)
    requires
        0 <= i < args.len(),
        spec_args_text(args, i) is None,
    ensures
        spec_args_text(args, 0) is None,
    decreases i,
{
    if i > 0 {
        assert(spec_args_text(args, i - 1) is None);
        lemma_args_text_none(args, i - 1);
    }
}

} // verus!

verus! {

/// One step of kebab-casing a name: underscores become dashes, an
/// upper-case letter after a lower-case one opens a new dash-separated
/// word, and everything is lower-cased.
pub open spec fn spec_kebab_rec(s: Seq<char>, i: int, prev_lower: bool) -> Seq<char>
    decreases s.len() - i,
{
    if i < 0 || i >= s.len() {
        Seq::empty()
    } else {
        let c = s[i];
        if c == '_' {
            seq!['-'] + spec_kebab_rec(s, i + 1, false)
        } else if crate::paths::spec_is_upper(c) {
            (if prev_lower {
                seq!['-', spec_lower_char(c)]
            } else {
                seq![spec_lower_char(c)]
            }) + spec_kebab_rec(s, i + 1, false)
        } else {
            seq![spec_lower_char(c)] + spec_kebab_rec(s, i + 1, crate::paths::spec_is_lower(c))
        }
    }
}

/// The kebab-cased resource name of a component name; a name with no
/// characters falls back to `component`.
pub open spec fn spec_wit_ident_base(s: Seq<char>) -> Seq<char> {
    let r = spec_kebab_rec(s, 0, false);
    if r.len() == 0 {
        "component"@
    } else {
        r
    }
}

fn wit_ident_base(name: &str) -> (r: String)
    ensures
        r@ == spec_wit_ident_base(name@),
{
    let n: usize = name.unicode_len();
    let mut out = String::new();
    let mut prev_lower = false;
    let mut i: usize = 0;
    while i < n
        invariant
            0 <= i <= n,
            n == name@.len(),
            out@ + spec_kebab_rec(name@, i as int, prev_lower) =~= spec_kebab_rec(
                name@,
                0,
                false,
            ),
        decreases n - i,
    {
        let c = name.get_char(i);
        let ghost pre_out = out@;
        let ghost pre_prev = prev_lower;
        if c == '_' {
            push_char(&mut out, '-');
            prev_lower = false;
        } else if crate::paths::char_is_upper(c) {
            if prev_lower {
                push_char(&mut out, '-');
            }
            push_char(&mut out, lower_char(c));
            prev_lower = false;
        } else {
            push_char(&mut out, lower_char(c));
            prev_lower = crate::paths::char_is_lower(c);
        }
        proof {
            assert(out@ + spec_kebab_rec(name@, i + 1, prev_lower) =~= pre_out
                + spec_kebab_rec(name@, i as int, pre_prev));
        }
        i = i + 1;
    }
    proof {
        assert(spec_kebab_rec(name@, n as int, prev_lower) =~= Seq::<char>::empty());
        assert(out@ =~= spec_kebab_rec(name@, 0, false));
    }
    if out.as_str().unicode_len() == 0 {
        let r = String::from_str("component");
        return r;
    }
    out
}

/// The `n`-th resource-name candidate: the base name itself, then the base
/// with a numeric suffix.
pub open spec fn spec_candidate(base: Seq<char>, n: int) -> Seq<char> {
    if n == 0 {
        base
    } else {
        base + "-"@ + spec_dec(n as nat)
    }
}

proof fn lemma_candidates_distinct(base: Seq<char>, i: int, j: int)
    requires
        0 <= i < j,
    ensures
        spec_candidate(base, i) != spec_candidate(base, j),
{
    reveal_strlit("-");
    crate::paths::lemma_dec_len_pos(j as nat);
    if i == 0 {
        assert(spec_candidate(base, j).len() >= base.len() + 2);
    } else {
        crate::paths::lemma_dec_len_pos(i as nat);
        if spec_candidate(base, i) == spec_candidate(base, j) {
            assert(spec_dec(i as nat) =~= spec_candidate(base, i).skip(base.len() as int + 1));
            assert(spec_dec(j as nat) =~= spec_candidate(base, j).skip(base.len() as int + 1));
            crate::paths::lemma_dec_injective(i as nat, j as nat);
        }
    }
}

/// Which name the dedup search settles on: the first candidate that is not
/// yet used. A search of one candidate per used name, plus one, always
/// finds it.
pub open spec fn spec_first_free_from(
    base: Seq<char>,
    used: Seq<Seq<char>>,
    n: int,
    fuel: int,
) -> Seq<char>
    decreases fuel,
{
    if fuel <= 0 || !used.contains(spec_candidate(base, n)) {
        spec_candidate(base, n)
    } else {
        spec_first_free_from(base, used, n + 1, fuel - 1)
    }
}

/// The unique resource name picked for `base` against the already-used
/// names.
pub open spec fn spec_to_wit_ident(base: Seq<char>, used: Seq<Seq<char>>) -> Seq<char> {
    spec_first_free_from(base, used, 0, used.len() as int)
}

proof fn lemma_next_candidate_free(base: Seq<char>, used: Seq<Seq<char>>, n: int)
    requires
        n == used.len(),
        forall|k: int| 0 <= k < n ==> used.contains(#[trigger] spec_candidate(base, k)),
    ensures
        !used.contains(spec_candidate(base, n)),
{
    broadcast use vstd::set::group_set_axioms, vstd::seq_lib::seq_to_set_is_finite;

    if used.contains(spec_candidate(base, n)) {
        let cands = Seq::new((n + 1) as nat, |k: int| spec_candidate(base, k));
        assert forall|x: int, y: int| 0 <= x < y < cands.len() implies cands[x] != cands[y] by {
            lemma_candidates_distinct(base, x, y);
        }
        assert(cands.no_duplicates());
        cands.unique_seq_to_set();
        assert(cands.to_set().len() == n + 1);
        assert forall|c: Seq<char>| cands.to_set().contains(c) implies used.to_set().contains(
            c,
        ) by {
            let k = choose|k: int| 0 <= k < cands.len() && cands[k] == c;
            assert(used.contains(spec_candidate(base, k)));
        }
        assert(cands.to_set().subset_of(used.to_set()));
        used.lemma_cardinality_of_set();
        vstd::set_lib::lemma_len_subset(cands.to_set(), used.to_set());
    }
}

fn used_contains(used: &Vec<String>, probe: &str) -> (r: bool)
    ensures
        r == used.deep_view().contains(probe@),
{
    let mut i: usize = 0;
    while i < used.len()
        invariant
            0 <= i <= used@.len(),
            forall|k: int| 0 <= k < i ==> used.deep_view()[k] != probe@,
        decreases used@.len() - i,
    {
        if str_eq(used[i].as_str(), probe) {
            proof {
                assert(used.deep_view()[i as int] == probe@);
            }
            return true;
        }
        i = i + 1;
    }
    false
}

fn make_candidate(base: &String, n: usize) -> (r: String)
    ensures
        r@ == spec_candidate(base@, n as int),
{
    if n == 0 {
        base.clone()
    } else {
        let mut c = base.clone();
        c.append("-");
        let d = usize_to_dec_string(n);
        c.append(d.as_str());
        proof {
            assert(c@ =~= base@ + "-"@ + spec_dec(n as nat));
        }
        c
    }
}

/// Pick the resource identifier for a component name: its kebab-cased
/// form, suffixed with the first free number when the plain form is taken.
/// The picked name is recorded as used and is never one that was already
/// used.
pub fn to_wit_ident(name: &str, used: &mut Vec<String>) -> (r: String)
    ensures
        r@ == spec_to_wit_ident(spec_wit_ident_base(name@), old(used).deep_view()),
        !old(used).deep_view().contains(r@),
        final(used).deep_view() =~= old(used).deep_view().push(r@),
{
    let base = wit_ident_base(name);
    let bound = used.len();
    let ghost used0 = used.deep_view();
    let mut n: usize = 0;
    loop
        invariant
            0 <= n <= bound,
            base@ == spec_wit_ident_base(name@),
            used0 == old(used).deep_view(),
            used.deep_view() == used0,
            bound == used0.len(),
            spec_to_wit_ident(base@, used0) == spec_first_free_from(
                base@,
                used0,
                n as int,
                bound - n,
            ),
            forall|k: int| 0 <= k < n ==> used0.contains(#[trigger] spec_candidate(base@, k)),
        decreases bound - n,
    {
        let candidate = make_candidate(&base, n);
        if !used_contains(used, candidate.as_str()) {
            let ghost prev = used.deep_view();
            let r = candidate.clone();
            used.push(candidate);
            proof {
                assert(used.deep_view() =~= prev.push(r@));
            }
            return r;
        }
        if n == bound {
            proof {
                lemma_next_candidate_free(base@, used0, bound as int);
            }
            return candidate;
        }
        n = n + 1;
    }
}

} // verus!
