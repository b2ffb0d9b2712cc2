//! Support logic for binding generation.
//!
//! Generated guest bindings carry a type-path tag in each resource's doc
//! text; extracting it gives every generated resource its `type_path`
//! helpers. Including authored component sources rebuilds the crate's
//! module tree from file paths, with path components sanitized into Rust
//! identifiers.

use vstd::prelude::*;
use vstd::string::*;

use crate::paths::{
    after_last, contains_seq, has_prefix, last_match, spec_is_digit, spec_trim, spec_upper_char,
    char_is_digit, contains_pattern, find_first, push_char, str_eq, strip_prefix_str, trim_ws,
    upper_char,
};

verus! {

/// True when a source file uses the authoring attributes and therefore
/// must be included when collecting components.
pub fn contains_wasvy_attr(contents: &str) -> (r: bool)
    ensures
        r == (contains_seq(contents@, "wasvy::component"@) || contains_seq(
            contents@,
            "wasvy::methods"@,
        )),
{
    contains_pattern(contents, "wasvy::component") || contains_pattern(
        contents,
        "wasvy::methods",
    )
}

/// One character of a sanitized identifier: dashes become underscores.
pub open spec fn spec_dash_fix(c: char) -> char {
    if c == '-' {
        '_'
    } else {
        c
    }
}

/// A path component sanitized into a Rust identifier: dashes become
/// underscores, a leading digit gains an underscore in front, and an empty
/// component becomes a bare underscore.
pub open spec fn spec_sanitize_ident(s: Seq<char>) -> Seq<char> {
    if s.len() == 0 {
        "_"@
    } else {
        let body = Seq::new(s.len(), |i: int| spec_dash_fix(s[i]));
        if spec_is_digit(spec_dash_fix(s[0])) {
            seq!['_'] + body
        } else {
            body
        }
    }
}

/// Sanitize a raw path component into a Rust identifier.
pub fn sanitize_ident(raw: &str) -> (r: String)
    ensures
        r@ == spec_sanitize_ident(raw@),
{
    let s_len: usize = raw.unicode_len();
    if s_len == 0 {
        let r = String::from_str("_");
        return r;
    }
    let mut out = String::new();
    let first = raw.get_char(0);
    let c0: char = if first == '-' {
        '_'
    } else {
        first
    };
    if char_is_digit(c0) {
        push_char(&mut out, '_');
    }
    let ghost head = out@;
    let mut i: usize = 0;
    while i < s_len
        invariant
            0 <= i <= s_len,
            s_len == raw@.len(),
            s_len > 0,
            head == (if spec_is_digit(spec_dash_fix(raw@[0])) {
                seq!['_']
            } else {
                Seq::<char>::empty()
            }),
            out@ =~= head + Seq::new(i as nat, |k: int| spec_dash_fix(raw@[k])),
        decreases s_len - i,
    {
        let ch = raw.get_char(i);
        let c: char = if ch == '-' {
            '_'
        } else {
            ch
        };
        push_char(&mut out, c);
        proof {
            assert(out@ =~= head + Seq::new((i + 1) as nat, |k: int| spec_dash_fix(raw@[k])));
        }
        i = i + 1;
    }
    proof {
        assert(Seq::new(s_len as nat, |k: int| spec_dash_fix(raw@[k])) =~= Seq::new(
            raw@.len(),
            |k: int| spec_dash_fix(raw@[k]),
        ));
        assert(out@ =~= spec_sanitize_ident(raw@));
    }
    out
}

/// Why a file path yields no module segments.
#[derive(Clone, Copy, Debug, PartialEq, Eq, Structural)]
pub enum SegmentError {
    /// The file does not lie under the base directory.
    NotUnderBase,
    /// The path names the base directory itself, not a file in it.
    NoFileName,
}

/// True when `base` is a component-wise prefix of `file`.
pub open spec fn spec_is_path_prefix(base: Seq<Seq<char>>, file: Seq<Seq<char>>) -> bool {
    base.len() <= file.len() && forall|i: int| 0 <= i < base.len() ==> base[i] == #[trigger] file[i]
}

/// The stem of a file name: everything before the last dot, unless the
/// only dot leads the name.
pub open spec fn spec_file_stem(name: Seq<char>) -> Seq<char> {
    let i = last_match(name, "."@);
    if i > 0 {
        name.take(i)
    } else {
        name
    }
}

/// The module segments a source file contributes: the sanitized directory
/// components below the base, plus the sanitized file stem — except that a
/// crate root contributes none and a `mod.rs` stands for its directory.
pub open spec fn spec_module_segments(
    base: Seq<Seq<char>>,
    file: Seq<Seq<char>>,
) -> Result<Seq<Seq<char>>, SegmentError> {
    if !spec_is_path_prefix(base, file) {
        Err(SegmentError::NotUnderBase)
    } else if file.len() == base.len() {
        Err(SegmentError::NoFileName)
    } else {
        let name = file.last();
        let dirs = Seq::new(
            (file.len() - base.len() - 1) as nat,
            |k: int| spec_sanitize_ident(file[base.len() + k]),
        );
        if name == "lib.rs"@ || name == "main.rs"@ {
            Ok(Seq::empty())
        } else if name == "mod.rs"@ {
            Ok(dirs)
        } else {
            Ok(dirs.push(spec_sanitize_ident(spec_file_stem(name))))
        }
    }
}

/// Turn a file path into the module segments it contributes, relative to
/// the base directory. Both paths are given as their components.
pub fn module_segments(base: &Vec<String>, file: &Vec<String>) -> (r: Result<
    Vec<String>,
    SegmentError,
>)
    ensures
        match r {
            Ok(segs) => spec_module_segments(base.deep_view(), file.deep_view()) == Ok::<
                Seq<Seq<char>>,
                SegmentError,
            >(segs.deep_view()),
            Err(e) => spec_module_segments(base.deep_view(), file.deep_view()) == Err::<
                Seq<Seq<char>>,
                SegmentError,
            >(e),
        },
{
    if base.len() > file.len() {
        return Err(SegmentError::NotUnderBase);
    }
    let mut i: usize = 0;
    while i < base.len()
        invariant
            0 <= i <= base@.len(),
            base@.len() <= file@.len(),
            forall|k: int| 0 <= k < i ==> base.deep_view()[k] == #[trigger] file.deep_view()[k],
        decreases base@.len() - i,
    {
        if !str_eq(base[i].as_str(), file[i].as_str()) {
            proof {
                assert(base.deep_view()[i as int] != file.deep_view()[i as int]);
            }
            return Err(SegmentError::NotUnderBase);
        }
        i = i + 1;
    }
    proof {
        assert(spec_is_path_prefix(base.deep_view(), file.deep_view()));
    }
    if file.len() == base.len() {
        return Err(SegmentError::NoFileName);
    }
    let name: &String = &file[file.len() - 1];
    proof {
        assert(name@ == file.deep_view().last());
    }
    let mut segs: Vec<String> = Vec::new();
    let n_file = file.len();
    let n_base = base.len();
    let dir_count = file.len() - base.len() - 1;
    let mut k: usize = 0;
    while k < dir_count
        invariant
            0 <= k <= dir_count,
            n_file == file@.len(),
            n_base == base@.len(),
            dir_count == file@.len() - base@.len() - 1,
            base@.len() <= file@.len(),
            segs.deep_view() =~= Seq::new(
                k as nat,
                |m: int| spec_sanitize_ident(file.deep_view()[base@.len() + m]),
            ),
        decreases dir_count - k,
    {
        let ghost prev = segs.deep_view();
        let seg = sanitize_ident(file[n_base + k].as_str());
        segs.push(seg);
        proof {
            assert(segs.deep_view() =~= prev.push(
                spec_sanitize_ident(file.deep_view()[base@.len() + k]),
            ));
            assert(segs.deep_view() =~= Seq::new(
                (k + 1) as nat,
                |m: int| spec_sanitize_ident(file.deep_view()[base@.len() + m]),
            ));
        }
        k = k + 1;
    }
    if str_eq(name.as_str(), "lib.rs") || str_eq(name.as_str(), "main.rs") {
        let empty: Vec<String> = Vec::new();
        proof {
            assert(empty.deep_view() =~= Seq::<Seq<char>>::empty());
        }
        return Ok(empty);
    }
    if str_eq(name.as_str(), "mod.rs") {
        return Ok(segs);
    }
    let stem: &str = match crate::paths::find_last(name.as_str(), ".") {
        Some(p) => {
            if p > 0 {
                name.as_str().substring_char(0, p)
            } else {
                name.as_str()
            }
        },
        None => name.as_str(),
    };
    proof {
        assert(stem@ =~= spec_file_stem(name@));
    }
    let last = sanitize_ident(stem);
    segs.push(last);
    proof {
        let expected = spec_module_segments(base.deep_view(), file.deep_view());
        assert(segs.deep_view() =~= expected->Ok_0);
    }
    Ok(segs)
}

/// A node of the rebuilt module tree: either one included source file, or
/// a directory of named child modules.
pub struct ModuleNode {
    /// The source file this node stands for, as its path components.
    pub file: Option<Vec<String>>,
    /// The named child modules, in first-insertion order, names unique.
    pub children: Vec<(String, ModuleNode)>,
}

/// The position of the child with the given name, or -1.
pub open spec fn spec_child_index(children: Seq<(String, ModuleNode)>, name: Seq<char>) -> int
    decreases children.len(),
{
    if children.len() == 0 {
        -1
    } else if children[0].0@ == name {
        0
    } else {
        let rest = spec_child_index(children.drop_first(), name);
        if rest == -1 {
            -1
        } else {
            rest + 1
        }
    }
}

/// The file recorded under a relative module path, if any.
pub open spec fn spec_file_at(n: ModuleNode, rel: Seq<Seq<char>>) -> Option<Seq<Seq<char>>>
    decreases rel.len(),
{
    if rel.len() == 0 {
        match n.file {
            Some(f) => Some(f.deep_view()),
            None => None,
        }
    } else {
        let ci = spec_child_index(n.children@, rel[0]);
        if ci >= 0 {
            spec_file_at(n.children@[ci].1, rel.drop_first())
        } else {
            None
        }
    }
}

proof fn lemma_child_index_bounds(children: Seq<(String, ModuleNode)>, name: Seq<char>)
    ensures
        spec_child_index(children, name) == -1 || (0 <= spec_child_index(children, name)
            < children.len() && children[spec_child_index(children, name)].0@ == name),
        spec_child_index(children, name) == -1 ==> forall|i: int|
            0 <= i < children.len() ==> (#[trigger] children[i]).0@ != name,
        forall|i: int|
            0 <= i < spec_child_index(children, name) ==> (#[trigger] children[i]).0@ != name,
    decreases children.len(),
{
    if children.len() > 0 && children[0].0@ != name {
        lemma_child_index_bounds(children.drop_first(), name);
        let rest = spec_child_index(children.drop_first(), name);
        if rest == -1 {
            assert forall|i: int| 0 <= i < children.len() implies (#[trigger] children[i]).0@
                != name by {
                if i > 0 {
                    assert(children.drop_first()[i - 1] == children[i]);
                }
            }
        } else {
            assert(children.drop_first()[rest] == children[rest + 1]);
            assert forall|i: int| 0 <= i < rest + 1 implies (#[trigger] children[i]).0@
                != name by {
                if i > 0 {
                    assert(children.drop_first()[i - 1] == children[i]);
                }
            }
        }
    }
}

fn find_child(children: &Vec<(String, ModuleNode)>, name: &str) -> (r: Option<usize>)
    ensures
        match r {
            Some(i) => i as int == spec_child_index(children@, name@) && (i as int)
                < children@.len(),
            None => spec_child_index(children@, name@) == -1,
        },
{
    proof {
        lemma_child_index_bounds(children@, name@);
    }
    let mut i: usize = 0;
    while i < children.len()
        invariant
            0 <= i <= children@.len(),
            forall|k: int| 0 <= k < i ==> (#[trigger] children@[k]).0@ != name@,
        decreases children@.len() - i,
    {
        if str_eq(children[i].0.as_str(), name) {
            proof {
                lemma_child_index_skip(children@, name@, i as int);
            }
            return Some(i);
        }
        i = i + 1;
    }
    proof {
        lemma_child_index_skip(children@, name@, children@.len() as int);
    }
    None
}

proof fn lemma_child_index_skip(children: Seq<(String, ModuleNode)>, name: Seq<char>, i: int)
    requires
        0 <= i <= children.len(),
        forall|k: int| 0 <= k < i ==> (#[trigger] children[k]).0@ != name,
        i < children.len() ==> children[i].0@ == name,
    ensures
        i < children.len() ==> spec_child_index(children, name) == i,
        i == children.len() ==> spec_child_index(children, name) == -1,
    decreases children.len(),
{
    if children.len() > 0 && children[0].0@ != name {
        assert forall|k: int|
            0 <= k < i - 1 implies (#[trigger] children.drop_first()[k]).0@ != name by {
            assert(children.drop_first()[k] == children[k + 1]);
        }
        if i > 0 {
            if i < children.len() {
                assert(children.drop_first()[i - 1] == children[i]);
            }
            lemma_child_index_skip(children.drop_first(), name, i - 1);
        }
    }
}

impl ModuleNode {
    /// An empty node: no file, no children.
    pub fn empty() -> (r: ModuleNode)
        ensures
            r.file is None,
            r.children@.len() == 0,
    {
        ModuleNode { file: None, children: Vec::new() }
    }

    /// Record a source file under a module path, creating the intermediate
    /// modules as needed. `from` is how much of `segments` has already
    /// been consumed on the way down.
    ///
    /// Afterwards the path resolves to the file, and every other path
    /// resolves to what it resolved to before.
    pub fn insert(&mut self, segments: &Vec<String>, from: usize, file: Vec<String>)
        requires
            from <= segments@.len(),
        ensures
            spec_file_at(*final(self), segments.deep_view().skip(from as int)) == Some(
                file.deep_view(),
            ),
            forall|rel: Seq<Seq<char>>|
                rel != segments.deep_view().skip(from as int) ==> #[trigger] spec_file_at(
                    *final(self),
                    rel,
                ) == spec_file_at(*old(self), rel),
        decreases segments@.len() - from,
    {
        if from == segments.len() {
            self.file = Some(file);
            proof {
                assert(segments.deep_view().skip(from as int) =~= Seq::<Seq<char>>::empty());
                assert forall|rel: Seq<Seq<char>>|
                    rel != segments.deep_view().skip(from as int) implies #[trigger] spec_file_at(
                    *self,
                    rel,
                ) == spec_file_at(*old(self), rel) by {
                    if rel.len() == 0 {
                        assert(rel =~= segments.deep_view().skip(from as int));
                    }
                }
            }
            return ;
        }
        let head: &String = &segments[from];
        let idx: usize = match find_child(&self.children, head.as_str()) {
            Some(i) => i,
            None => {
                let ghost prev_children = self.children@;
                self.children.push((head.clone(), ModuleNode::empty()));
                proof {
                    lemma_child_index_push_miss(prev_children, head@);
                    assert(self.children@.len() - 1 < self.children@.len());
                }
                self.children.len() - 1
            },
        };
        proof {
            lemma_child_index_bounds(self.children@, head@);
            assert(spec_child_index(self.children@, head@) == idx as int);
        }
        let ghost mid_children = self.children@;
        let (name, mut child) = self.children.remove(idx);
        let ghost child_pre = child;
        child.insert(segments, from + 1, file);
        self.children.insert(idx, (name, child));
        proof {
            assert(self.children@ =~= mid_children.update(
                idx as int,
                (mid_children[idx as int].0, child),
            ));
            lemma_insert_frame(
                *old(self),
                *self,
                mid_children,
                idx as int,
                head@,
                child_pre,
                child,
                segments.deep_view(),
                from as int,
                file.deep_view(),
            );
        }
    }
}

proof fn lemma_child_index_push_miss(children: Seq<(String, ModuleNode)>, name: Seq<char>)
    requires
        spec_child_index(children, name) == -1,
    ensures
        forall|node: ModuleNode, s: String|
            s@ == name ==> #[trigger] spec_child_index(children.push((s, node)), name)
                == children.len(),
        forall|other: Seq<char>, node: ModuleNode, s: String|
            other != name && s@ == name ==> #[trigger] spec_child_index(
                children.push((s, node)),
                other,
            ) == spec_child_index(children, other),
    decreases children.len(),
{
    lemma_child_index_bounds(children, name);
    assert forall|node: ModuleNode, s: String| s@ == name implies #[trigger] spec_child_index(
        children.push((s, node)),
        name,
    ) == children.len() by {
        lemma_child_index_push_hit(children, name, s, node);
    }
    assert forall|other: Seq<char>, node: ModuleNode, s: String|
        other != name && s@ == name implies #[trigger] spec_child_index(
        children.push((s, node)),
        other,
    ) == spec_child_index(children, other) by {
        lemma_child_index_push_other(children, other, s, node);
    }
}

proof fn lemma_child_index_push_hit(
    children: Seq<(String, ModuleNode)>,
    name: Seq<char>,
    s: String,
    node: ModuleNode,
)
    requires
        spec_child_index(children, name) == -1,
        s@ == name,
    ensures
        spec_child_index(children.push((s, node)), name) == children.len(),
    decreases children.len(),
{
    if children.len() == 0 {
        assert(children.push((s, node))[0] == (s, node));
    } else {
        assert(children.push((s, node))[0] == children[0]);
        assert(children[0].0@ != name) by {
            if children[0].0@ == name {
                assert(spec_child_index(children, name) == 0);
            }
        }
        assert(spec_child_index(children.drop_first(), name) == -1) by {
            if spec_child_index(children.drop_first(), name) != -1 {
                lemma_child_index_bounds(children.drop_first(), name);
                assert(spec_child_index(children, name) == spec_child_index(
                    children.drop_first(),
                    name,
                ) + 1);
            }
        }
        assert(children.push((s, node)).drop_first() =~= children.drop_first().push((s, node)));
        lemma_child_index_push_hit(children.drop_first(), name, s, node);
    }
}

proof fn lemma_child_index_push_other(
    children: Seq<(String, ModuleNode)>,
    other: Seq<char>,
    s: String,
    node: ModuleNode,
)
    requires
        s@ != other,
    ensures
        spec_child_index(children.push((s, node)), other) == spec_child_index(children, other),
    decreases children.len(),
{
    if children.len() == 0 {
        assert(children.push((s, node))[0] == (s, node));
        assert(children.push((s, node)).drop_first() =~= Seq::<(String, ModuleNode)>::empty());
        assert(spec_child_index(Seq::<(String, ModuleNode)>::empty(), other) == -1);
        assert(spec_child_index(children.push((s, node)), other) == -1);
        assert(spec_child_index(children, other) == -1);
    } else {
        assert(children.push((s, node))[0] == children[0]);
        if children[0].0@ == other {
            assert(spec_child_index(children, other) == 0);
            assert(spec_child_index(children.push((s, node)), other) == 0);
        } else {
            assert(children.push((s, node)).drop_first() =~= children.drop_first().push(
                (s, node),
            ));
            lemma_child_index_push_other(children.drop_first(), other, s, node);
            assert(spec_child_index(children.push((s, node)), other) == (
            if spec_child_index(children.drop_first().push((s, node)), other) == -1 {
                -1int
            } else {
                spec_child_index(children.drop_first().push((s, node)), other) + 1
            }));
            assert(spec_child_index(children, other) == (
            if spec_child_index(children.drop_first(), other) == -1 {
                -1int
            } else {
                spec_child_index(children.drop_first(), other) + 1
            }));
        }
    }
}

proof fn lemma_child_index_update(
    children: Seq<(String, ModuleNode)>,
    idx: int,
    node: ModuleNode,
    probe: Seq<char>,
)
    requires
        0 <= idx < children.len(),
    ensures
        spec_child_index(children.update(idx, (children[idx].0, node)), probe)
            == spec_child_index(children, probe),
    decreases children.len(),
{
    let upd = children.update(idx, (children[idx].0, node));
    if idx == 0 {
        assert(upd[0].0 == children[0].0);
        if children[0].0@ != probe {
            assert(upd.drop_first() =~= children.drop_first());
        }
    } else {
        assert(upd[0] == children[0]);
        if children[0].0@ != probe {
            assert(upd.drop_first() =~= children.drop_first().update(
                idx - 1,
                (children.drop_first()[idx - 1].0, node),
            ));
            lemma_child_index_update(children.drop_first(), idx - 1, node, probe);
        }
    }
}

proof fn lemma_insert_frame(
    pre: ModuleNode,
    post: ModuleNode,
    mid_children: Seq<(String, ModuleNode)>,
    idx: int,
    head: Seq<char>,
    child_pre: ModuleNode,
    child_post: ModuleNode,
    segs: Seq<Seq<char>>,
    from: int,
    file: Seq<Seq<char>>,
)
    requires
        0 <= from < segs.len(),
        segs[from] == head,
        0 <= idx < mid_children.len(),
        mid_children[idx].0@ == head,
        spec_child_index(mid_children, head) == idx,
        mid_children[idx].1 == child_pre,
        post.children@ == mid_children.update(idx, (mid_children[idx].0, child_post)),
        post.file == pre.file,
        // how mid_children relates to the original children
        (pre.children@ == mid_children || (spec_child_index(pre.children@, head) == -1
            && mid_children == pre.children@.push((mid_children[idx].0, child_pre))
            && child_pre.file is None && child_pre.children@.len() == 0)),
        // what the recursive insert did to the child
        spec_file_at(child_post, segs.skip(from + 1)) == Some(file),
        forall|rel: Seq<Seq<char>>|
            rel != segs.skip(from + 1) ==> #[trigger] spec_file_at(child_post, rel)
                == spec_file_at(child_pre, rel),
    ensures
        spec_file_at(post, segs.skip(from)) == Some(file),
        forall|rel: Seq<Seq<char>>|
            rel != segs.skip(from) ==> #[trigger] spec_file_at(post, rel) == spec_file_at(
                pre,
                rel,
            ),
{
    let tail = segs.skip(from);
    assert(tail[0] == head);
    assert(tail.drop_first() =~= segs.skip(from + 1));
    lemma_child_index_update(mid_children, idx, child_post, head);
    assert(spec_child_index(post.children@, head) == idx);
    assert(post.children@[idx].1 == child_post);
    assert(spec_file_at(post, tail) == spec_file_at(child_post, segs.skip(from + 1)));
    assert forall|rel: Seq<Seq<char>>| rel != tail implies #[trigger] spec_file_at(post, rel)
        == spec_file_at(pre, rel) by {
        if rel.len() == 0 {
        } else if rel[0] == head {
            assert(rel.drop_first() != segs.skip(from + 1)) by {
                if rel.drop_first() == segs.skip(from + 1) {
                    assert(rel.len() == tail.len());
                    assert forall|j: int| 0 <= j < rel.len() implies rel[j] == tail[j] by {
                        if j > 0 {
                            assert(rel.drop_first()[j - 1] == rel[j]);
                            assert(tail.drop_first()[j - 1] == tail[j]);
                        }
                    }
                    assert(rel =~= tail);
                }
            }
            assert(spec_child_index(post.children@, rel[0]) == idx);
            assert(spec_file_at(post, rel) == spec_file_at(child_post, rel.drop_first()));
            assert(spec_file_at(child_post, rel.drop_first()) == spec_file_at(
                child_pre,
                rel.drop_first(),
            ));
            if pre.children@ == mid_children {
                assert(spec_file_at(pre, rel) == spec_file_at(child_pre, rel.drop_first()));
            } else {
                lemma_child_index_push_miss(pre.children@, head);
                assert(spec_child_index(pre.children@, head) == -1);
                assert(spec_file_at(pre, rel) is None);
                assert(spec_file_at(child_pre, rel.drop_first()) is None) by {
                    if rel.drop_first().len() == 0 {
                    } else {
                        assert(spec_child_index(child_pre.children@, rel.drop_first()[0])
                            == -1);
                    }
                }
            }
        } else {
            lemma_child_index_update(mid_children, idx, child_post, rel[0]);
            let ci = spec_child_index(mid_children, rel[0]);
            lemma_child_index_bounds(mid_children, rel[0]);
            if pre.children@ == mid_children {
                if ci >= 0 {
                    assert(ci != idx);
                    assert(post.children@[ci] == mid_children[ci]);
                }
            } else {
                lemma_child_index_push_other(
                    pre.children@,
                    rel[0],
                    mid_children[idx].0,
                    child_pre,
                );
                let ci0 = spec_child_index(pre.children@, rel[0]);
                assert(ci == ci0);
                lemma_child_index_bounds(pre.children@, rel[0]);
                if ci0 >= 0 {
                    assert(mid_children[ci0] == pre.children@[ci0]);
                    assert(ci0 != idx);
                    assert(post.children@[ci0] == pre.children@[ci0]);
                }
            }
        }
    }
}

/// The type-path tag carried by one line of doc text, if the line is a
/// well-formed tag with a non-empty value.
pub open spec fn spec_line_tag(line: Seq<char>) -> Option<Seq<char>> {
    let t = spec_trim(line);
    if has_prefix(t, "wasvy:type-path="@) {
        let v = spec_trim(t.skip("wasvy:type-path="@.len() as int));
        if v.len() > 0 {
            Some(v)
        } else {
            None
        }
    } else {
        None
    }
}

/// The first type-path tag in a doc text, scanning line by line.
pub open spec fn spec_extract_tag(s: Seq<char>) -> Option<Seq<char>>
    decreases s.len(),
{
    let nl = crate::paths::first_match(s, "\n"@);
    if 0 <= nl < s.len() {
        match spec_line_tag(s.take(nl)) {
            Some(v) => Some(v),
            None => spec_extract_tag(s.skip(nl + 1)),
        }
    } else {
        spec_line_tag(s)
    }
}

fn line_tag<'a>(line: &'a str) -> (r: Option<&'a str>)
    ensures
        match r {
            Some(v) => spec_line_tag(line@) == Some(v@),
            None => spec_line_tag(line@) is None,
        },
{
    let t = trim_ws(line);
    match strip_prefix_str(t, "wasvy:type-path=") {
        Some(rest) => {
            let v = trim_ws(rest);
            if v.unicode_len() > 0 {
                Some(v)
            } else {
                None
            }
        },
        None => None,
    }
}

/// The type path a generated resource is tagged with: the value of the
/// first `wasvy:type-path=` line in its doc text, trimmed; nothing when no
/// line carries a non-empty tag.
pub fn extract_wit_type_path(docs: &str) -> (r: Option<String>)
    ensures
        match r {
            Some(v) => spec_extract_tag(docs@) == Some(v@),
            None => spec_extract_tag(docs@) is None,
        },
{
    proof {
        reveal_strlit("\n");
    }
    let mut cur: &str = docs;
    proof {
        assert(spec_extract_tag(docs@) == spec_extract_tag(cur@));
    }
    loop
        invariant
            spec_extract_tag(docs@) == spec_extract_tag(cur@),
        decreases cur@.len(),
    {
        proof {
            reveal_strlit("\n");
        }
        match find_first(cur, "\n") {
            Some(nl) => {
                let cur_len: usize = cur.unicode_len();
                let line = cur.substring_char(0, nl);
                proof {
                    assert(line@ =~= cur@.take(nl as int));
                }
                match line_tag(line) {
                    Some(v) => {
                        return Some(String::from_str(v));
                    },
                    None => {},
                }
                let rest = cur.substring_char(nl + 1, cur_len);
                proof {
                    assert(rest@ =~= cur@.skip(nl + 1));
                }
                cur = rest;
            },
            None => {
                return match line_tag(cur) {
                    Some(v) => Some(String::from_str(v)),
                    None => None,
                };
            },
        }
    }
}

/// The camel-cased form of a name, character by character: separators are
/// dropped and capitalize the next character.
pub open spec fn spec_upper_camel_rec(s: Seq<char>, i: int, cap: bool) -> Seq<char>
    decreases s.len() - i,
{
    if i < 0 || i >= s.len() {
        Seq::empty()
    } else if s[i] == '-' || s[i] == '_' {
        spec_upper_camel_rec(s, i + 1, true)
    } else {
        seq![
            if cap {
                spec_upper_char(s[i])
            } else {
                s[i]
            },
        ] + spec_upper_camel_rec(s, i + 1, false)
    }
}

/// The resource type identifier for a kebab- or snake-case name; a name
/// with no identifier characters falls back to `Component`.
pub open spec fn spec_upper_camel(s: Seq<char>) -> Seq<char> {
    let r = spec_upper_camel_rec(s, 0, true);
    if r.len() == 0 {
        "Component"@
    } else {
        r
    }
}

/// Camel-case a resource name into a Rust type identifier.
pub fn upper_camel(name: &str) -> (r: String)
    ensures
        r@ == spec_upper_camel(name@),
{
    let n: usize = name.unicode_len();
    let mut out = String::new();
    let mut cap = true;
    let mut i: usize = 0;
    while i < n
        invariant
            0 <= i <= n,
            n == name@.len(),
            out@ + spec_upper_camel_rec(name@, i as int, cap) =~= spec_upper_camel_rec(
                name@,
                0,
                true,
            ),
        decreases n - i,
    {
        let c = name.get_char(i);
        let ghost pre_out = out@;
        let ghost pre_cap = cap;
        if c == '-' || c == '_' {
            cap = true;
        } else {
            if cap {
                push_char(&mut out, upper_char(c));
            } else {
                push_char(&mut out, c);
            }
            cap = false;
        }
        proof {
            assert(out@ + spec_upper_camel_rec(name@, i + 1, cap) =~= pre_out
                + spec_upper_camel_rec(name@, i as int, pre_cap));
        }
        i = i + 1;
    }
    proof {
        assert(spec_upper_camel_rec(name@, n as int, cap) =~= Seq::<char>::empty());
        assert(out@ =~= spec_upper_camel_rec(name@, 0, true));
    }
    if out.as_str().unicode_len() == 0 {
        let r = String::from_str("Component");
        return r;
    }
    out
}

/// The interface function name behind a fully qualified export name: the
/// part after the last dot, or after the last closing bracket when there
/// is no dot.
pub open spec fn spec_wit_method_name(s: Seq<char>) -> Seq<char> {
    if contains_seq(s, "."@) {
        after_last(s, "."@)
    } else if contains_seq(s, "]"@) {
        after_last(s, "]"@)
    } else {
        s
    }
}

/// Derive the plain function name from a fully qualified export name.
pub fn wit_method_name<'a>(name: &'a str) -> (r: &'a str)
    ensures
        r@ == spec_wit_method_name(name@),
{
    if contains_pattern(name, ".") {
        crate::paths::suffix_after_last(name, ".")
    } else if contains_pattern(name, "]") {
        crate::paths::suffix_after_last(name, "]")
    } else {
        name
    }
}

} // verus!
