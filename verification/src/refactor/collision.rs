//! Name-collision detection: which names are visible at a position.
use vstd::prelude::*;

use crate::refactor::{decl_name, get_declaration_name, is_decl_kind, is_declaration_kind};
use crate::syntax::{SyntaxNode, child, field_child, child_by_field_name, kind_is, text_of, tree_ok};
use crate::text::{chars_of, seq_eq};

verus! {

/// The names a list of strings holds.
pub open spec fn names_set(v: Seq<String>) -> Set<Seq<char>> {
    Set::new(|t: Seq<char>| exists|i: int| 0 <= i < v.len() && v[i]@ == t)
}

/// No name occurs twice.
pub open spec fn distinct(v: Seq<String>) -> bool {
    forall|i: int, j: int| 0 <= i < j < v.len() ==> v[i]@ != v[j]@
}

/// Names visible at a given AST position, grouped by scope; none occurs twice in a group.
pub struct ScopeNames {
    pub locals: Vec<String>,
    pub file_level: Vec<String>,
    pub builtins: Vec<String>,
}

/// Which scope the collision was found in.
#[derive(Debug, Clone, Copy, PartialEq, Eq, Structural)]
pub enum CollisionKind {
    Local,
    FileLevel,
    Builtin,
}

impl CollisionKind {
    /// How the scope is named in messages.
    pub fn describe(&self) -> (r: &'static str)
        ensures
            r@ == match self {
                CollisionKind::Local => "local variable"@,
                CollisionKind::FileLevel => "file-level declaration"@,
                CollisionKind::Builtin => "GDScript builtin"@,
            },
    {
        match self {
            CollisionKind::Local => "local variable",
            CollisionKind::FileLevel => "file-level declaration",
            CollisionKind::Builtin => "GDScript builtin",
        }
    }
}

/// The scope in which `name` collides, looking at locals, then file-level names, then builtins.
pub open spec fn collision(name: Seq<char>, scope: ScopeNames) -> Option<CollisionKind> {
    if names_set(scope.locals@).contains(name) {
        Some(CollisionKind::Local)
    } else if names_set(scope.file_level@).contains(name) {
        Some(CollisionKind::FileLevel)
    } else if names_set(scope.builtins@).contains(name) {
        Some(CollisionKind::Builtin)
    } else {
        None
    }
}

/// Whether a list of names holds `name`.
pub fn contains_name(v: &Vec<String>, name: &str) -> (r: bool)
    ensures
        r == names_set(v@).contains(name@),
{
    let nc = chars_of(name);
    let mut i: usize = 0;
    while i < v.len()
        invariant
            i <= v@.len(),
            nc@ == name@,
            forall|j: int| 0 <= j < i ==> v@[j]@ != name@,
        decreases v@.len() - i,
    {
        let c = chars_of(v[i].as_str());
        if seq_eq(&c, &nc) {
            assert(names_set(v@).contains(name@));
            return true;
        }
        i += 1;
    }
    false
}

/// Adds a name unless it is already there.
pub fn add_name(v: &mut Vec<String>, name: String)
    requires
        distinct(old(v)@),
    ensures
        distinct(final(v)@),
        names_set(final(v)@) == names_set(old(v)@).insert(name@),
{
    if !contains_name(v, name.as_str()) {
        let ghost before = v@;
        let ghost nm = name@;
        v.push(name);
        assert(names_set(v@) =~= names_set(before).insert(nm)) by {
            assert forall|t: Seq<char>| names_set(v@).contains(t) implies names_set(before).insert(nm).contains(t) by {
                let i = choose|i: int| 0 <= i < v@.len() && v@[i]@ == t;
                if i < before.len() {
                    assert(before[i]@ == t);
                }
            }
            assert forall|t: Seq<char>| names_set(before).insert(nm).contains(t) implies names_set(v@).contains(t) by {
                if t == nm {
                    assert(v@[before.len() as int]@ == t);
                } else {
                    let i = choose|i: int| 0 <= i < before.len() && before[i]@ == t;
                    assert(v@[i]@ == t);
                }
            }
        }
    } else {
        assert(names_set(v@) =~= names_set(v@).insert(name@));
    }
}

/// Check if `name` collides with any visible name. Returns the collision kind.
pub fn check_collision(name: &str, scope: &ScopeNames) -> (r: Option<CollisionKind>)
    ensures
        r == collision(name@, *scope),
{
    if contains_name(&scope.locals, name) {
        Some(CollisionKind::Local)
    } else if contains_name(&scope.file_level, name) {
        Some(CollisionKind::FileLevel)
    } else if contains_name(&scope.builtins, name) {
        Some(CollisionKind::Builtin)
    } else {
        None
    }
}

// ── Builtins ───────────────────────────────────────────────────────────────

/// GDScript keywords, constants and core Godot types and classes.
pub open spec fn builtin_names() -> Seq<Seq<char>> {
    seq![
        "if"@,
        "elif"@,
        "else"@,
        "for"@,
        "while"@,
        "match"@,
        "break"@,
        "continue"@,
        "pass"@,
        "return"@,
        "class"@,
        "class_name"@,
        "extends"@,
        "is"@,
        "in"@,
        "as"@,
        "self"@,
        "signal"@,
        "func"@,
        "static"@,
        "const"@,
        "enum"@,
        "var"@,
        "breakpoint"@,
        "preload"@,
        "await"@,
        "yield"@,
        "assert"@,
        "void"@,
        "PI"@,
        "TAU"@,
        "INF"@,
        "NAN"@,
        "true"@,
        "false"@,
        "null"@,
        "super"@,
        "not"@,
        "and"@,
        "or"@,
        "Vector2"@,
        "Vector2i"@,
        "Vector3"@,
        "Vector3i"@,
        "Vector4"@,
        "Vector4i"@,
        "Color"@,
        "Rect2"@,
        "Rect2i"@,
        "Transform2D"@,
        "Transform3D"@,
        "Basis"@,
        "Quaternion"@,
        "AABB"@,
        "Plane"@,
        "Projection"@,
        "RID"@,
        "Callable"@,
        "Signal"@,
        "NodePath"@,
        "StringName"@,
        "Array"@,
        "Dictionary"@,
        "PackedByteArray"@,
        "PackedInt32Array"@,
        "PackedInt64Array"@,
        "PackedFloat32Array"@,
        "PackedFloat64Array"@,
        "PackedStringArray"@,
        "PackedVector2Array"@,
        "PackedVector3Array"@,
        "PackedColorArray"@,
        "PackedVector4Array"@,
        "Node"@,
        "Node2D"@,
        "Node3D"@,
        "Control"@,
        "Resource"@,
        "Object"@,
        "RefCounted"@,
        "Tween"@,
        "Timer"@,
        "SceneTree"@,
    ]
}

/// GDScript keywords, constants and core Godot types and classes.
pub fn gdscript_builtins() -> (v: Vec<String>)
    ensures
        v@.map_values(|s: String| s@) == builtin_names(),
{
    let mut v: Vec<String> = Vec::new();
    v.push(String::from_str("if"));
    v.push(String::from_str("elif"));
    v.push(String::from_str("else"));
    v.push(String::from_str("for"));
    v.push(String::from_str("while"));
    v.push(String::from_str("match"));
    v.push(String::from_str("break"));
    v.push(String::from_str("continue"));
    v.push(String::from_str("pass"));
    v.push(String::from_str("return"));
    v.push(String::from_str("class"));
    v.push(String::from_str("class_name"));
    v.push(String::from_str("extends"));
    v.push(String::from_str("is"));
    v.push(String::from_str("in"));
    v.push(String::from_str("as"));
    v.push(String::from_str("self"));
    v.push(String::from_str("signal"));
    v.push(String::from_str("func"));
    v.push(String::from_str("static"));
    v.push(String::from_str("const"));
    v.push(String::from_str("enum"));
    v.push(String::from_str("var"));
    v.push(String::from_str("breakpoint"));
    v.push(String::from_str("preload"));
    v.push(String::from_str("await"));
    v.push(String::from_str("yield"));
    v.push(String::from_str("assert"));
    v.push(String::from_str("void"));
    v.push(String::from_str("PI"));
    v.push(String::from_str("TAU"));
    v.push(String::from_str("INF"));
    v.push(String::from_str("NAN"));
    v.push(String::from_str("true"));
    v.push(String::from_str("false"));
    v.push(String::from_str("null"));
    v.push(String::from_str("super"));
    v.push(String::from_str("not"));
    v.push(String::from_str("and"));
    v.push(String::from_str("or"));
    v.push(String::from_str("Vector2"));
    v.push(String::from_str("Vector2i"));
    v.push(String::from_str("Vector3"));
    v.push(String::from_str("Vector3i"));
    v.push(String::from_str("Vector4"));
    v.push(String::from_str("Vector4i"));
    v.push(String::from_str("Color"));
    v.push(String::from_str("Rect2"));
    v.push(String::from_str("Rect2i"));
    v.push(String::from_str("Transform2D"));
    v.push(String::from_str("Transform3D"));
    v.push(String::from_str("Basis"));
    v.push(String::from_str("Quaternion"));
    v.push(String::from_str("AABB"));
    v.push(String::from_str("Plane"));
    v.push(String::from_str("Projection"));
    v.push(String::from_str("RID"));
    v.push(String::from_str("Callable"));
    v.push(String::from_str("Signal"));
    v.push(String::from_str("NodePath"));
    v.push(String::from_str("StringName"));
    v.push(String::from_str("Array"));
    v.push(String::from_str("Dictionary"));
    v.push(String::from_str("PackedByteArray"));
    v.push(String::from_str("PackedInt32Array"));
    v.push(String::from_str("PackedInt64Array"));
    v.push(String::from_str("PackedFloat32Array"));
    v.push(String::from_str("PackedFloat64Array"));
    v.push(String::from_str("PackedStringArray"));
    v.push(String::from_str("PackedVector2Array"));
    v.push(String::from_str("PackedVector3Array"));
    v.push(String::from_str("PackedColorArray"));
    v.push(String::from_str("PackedVector4Array"));
    v.push(String::from_str("Node"));
    v.push(String::from_str("Node2D"));
    v.push(String::from_str("Node3D"));
    v.push(String::from_str("Control"));
    v.push(String::from_str("Resource"));
    v.push(String::from_str("Object"));
    v.push(String::from_str("RefCounted"));
    v.push(String::from_str("Tween"));
    v.push(String::from_str("Timer"));
    v.push(String::from_str("SceneTree"));
    assert(v@.map_values(|s: String| s@) =~= builtin_names());
    v
}

// ── Local names ────────────────────────────────────────────────────────────

/// The name a parameter child declares.
pub open spec fn param_name_of(c: SyntaxNode, src: Seq<char>) -> Option<Seq<char>> {
    if c.kind@ == "identifier"@ {
        Some(text_of(src, c))
    } else if c.kind@ == "typed_parameter"@ || c.kind@ == "default_parameter"@ || c.kind@
        == "typed_default_parameter"@ {
        match child(c, 0) {
            Some(n) => if n.kind@ == "identifier"@ {
                Some(text_of(src, n))
            } else {
                None
            },
            None => None,
        }
    } else {
        None
    }
}

/// Names declared by the first `k` children, each through `f`.
pub open spec fn names_from(cs: Seq<SyntaxNode>, k: int, f: spec_fn(SyntaxNode) -> Option<Seq<char>>) -> Set<Seq<char>> {
    Set::new(|t: Seq<char>| exists|i: int| 0 <= i < k && i < cs.len() && f(cs[i]) == Some(t))
}

proof fn lemma_names_from_step(cs: Seq<SyntaxNode>, k: int, f: spec_fn(SyntaxNode) -> Option<Seq<char>>)
    requires
        0 <= k < cs.len(),
    ensures
        names_from(cs, k + 1, f) == match f(cs[k]) {
            Some(t) => names_from(cs, k, f).insert(t),
            None => names_from(cs, k, f),
        },
{
    match f(cs[k]) {
        Some(t) => {
            assert(names_from(cs, k + 1, f) =~= names_from(cs, k, f).insert(t));
        },
        None => {
            assert(names_from(cs, k + 1, f) =~= names_from(cs, k, f));
        },
    }
}

fn param_name(c: &SyntaxNode, source: &str) -> (r: Option<String>)
    requires
        tree_ok(source@, *c),
    ensures
        match r {
            Some(s) => param_name_of(*c, source@) == Some(s@),
            None => param_name_of(*c, source@) is None,
        },
{
    if kind_is(c, "identifier") {
        return Some(crate::syntax::node_text(c, source));
    }
    if kind_is(c, "typed_parameter") || kind_is(c, "default_parameter") || kind_is(c, "typed_default_parameter") {
        if c.children.len() > 0 {
            let n = &c.children[0];
            assert(tree_ok(source@, *n));
            if kind_is(n, "identifier") {
                return Some(crate::syntax::node_text(n, source));
            }
        }
    }
    None
}

/// Adds the parameter names declared in `params` to `names`.
pub fn collect_param_names_into(params: &SyntaxNode, source: &str, names: &mut Vec<String>)
    requires
        tree_ok(source@, *params),
        distinct(old(names)@),
    ensures
        distinct(final(names)@),
        names_set(final(names)@) == names_set(old(names)@).union(
            names_from(params.children@, params.children@.len() as int, |c: SyntaxNode| param_name_of(c, source@)),
        ),
{
    let ghost f = |c: SyntaxNode| param_name_of(c, source@);
    let ghost base = names_set(names@);
    let mut i: usize = 0;
    while i < params.children.len()
        invariant
            i <= params.children@.len(),
            tree_ok(source@, *params),
            f == (|c: SyntaxNode| param_name_of(c, source@)),
            distinct(names@),
            names_set(names@) == base.union(names_from(params.children@, i as int, f)),
        decreases params.children@.len() - i,
    {
        proof {
            lemma_names_from_step(params.children@, i as int, f);
        }
        assert(tree_ok(source@, params.children@[i as int]));
        match param_name(&params.children[i], source) {
            Some(n) => {
                add_name(names, n);
            },
            None => {},
        }
        i += 1;
        assert(names_set(names@) =~= base.union(names_from(params.children@, i as int, f)));
    }
}

/// The local a body statement declares: a `var` name or a `for` iterator.
pub open spec fn local_name_of(c: SyntaxNode, src: Seq<char>) -> Option<Seq<char>> {
    if c.kind@ == "variable_statement"@ && field_child(c, "name"@) is Some {
        Some(text_of(src, field_child(c, "name"@)->0))
    } else if c.kind@ == "for_statement"@ && field_child(c, "left"@) is Some {
        Some(text_of(src, field_child(c, "left"@)->0))
    } else {
        None
    }
}

/// Index of the first statement of `body` that starts after row `max_row`.
pub open spec fn rows_upto(cs: Seq<SyntaxNode>, max_row: usize) -> int {
    match crate::syntax::first_where(cs, |c: SyntaxNode| c.start_row > max_row) {
        Some(i) => i,
        None => cs.len() as int,
    }
}

fn local_name(c: &SyntaxNode, source: &str) -> (r: Option<String>)
    requires
        tree_ok(source@, *c),
    ensures
        match r {
            Some(s) => local_name_of(*c, source@) == Some(s@),
            None => local_name_of(*c, source@) is None,
        },
{
    if kind_is(c, "variable_statement") {
        match child_by_field_name(c, "name") {
            Some(n) => {
                assert(tree_ok(source@, *n));
                return Some(crate::syntax::node_text(n, source));
            },
            None => {},
        }
    }
    if kind_is(c, "for_statement") {
        match child_by_field_name(c, "left") {
            Some(n) => {
                assert(tree_ok(source@, *n));
                return Some(crate::syntax::node_text(n, source));
            },
            None => {},
        }
    }
    None
}

/// Adds the locals declared by the statements of `body` that start at or before `max_row`.
pub fn collect_body_locals(body: &SyntaxNode, source: &str, max_row: usize, names: &mut Vec<String>)
    requires
        tree_ok(source@, *body),
        distinct(old(names)@),
    ensures
        distinct(final(names)@),
        names_set(final(names)@) == names_set(old(names)@).union(
            names_from(body.children@, rows_upto(body.children@, max_row), |c: SyntaxNode| local_name_of(c, source@)),
        ),
{
    let ghost f = |c: SyntaxNode| local_name_of(c, source@);
    let ghost p = |c: SyntaxNode| c.start_row > max_row;
    let ghost base = names_set(names@);
    let mut i: usize = 0;
    while i < body.children.len()
        invariant
            i <= body.children@.len(),
            tree_ok(source@, *body),
            f == (|c: SyntaxNode| local_name_of(c, source@)),
            p == (|c: SyntaxNode| c.start_row > max_row),
            base == names_set(old(names)@),
            forall|j: int| 0 <= j < i ==> !p(#[trigger] body.children@[j]),
            distinct(names@),
            names_set(names@) == base.union(names_from(body.children@, i as int, f)),
        decreases body.children@.len() - i,
    {
        if body.children[i].start_row > max_row {
            proof {
                crate::syntax::lemma_first_where(body.children@, p, i as int);
                assert(rows_upto(body.children@, max_row) == i);
                assert(names_from(body.children@, rows_upto(body.children@, max_row), |c: SyntaxNode| local_name_of(c, source@)) == names_from(body.children@, i as int, f));
            }
            return;
        }
        proof {
            lemma_names_from_step(body.children@, i as int, f);
        }
        assert(tree_ok(source@, body.children@[i as int]));
        match local_name(&body.children[i], source) {
            Some(n) => {
                add_name(names, n);
            },
            None => {},
        }
        i += 1;
        assert(names_set(names@) =~= base.union(names_from(body.children@, i as int, f)));
    }
}

/// Parameters and locals of `func` visible at `row`.
pub open spec fn local_names(func: SyntaxNode, src: Seq<char>, row: usize) -> Set<Seq<char>> {
    let ps = match field_child(func, "parameters"@) {
        Some(p) => names_from(p.children@, p.children@.len() as int, |c: SyntaxNode| param_name_of(c, src)),
        None => Set::empty(),
    };
    let ls = match field_child(func, "body"@) {
        Some(b) => names_from(b.children@, rows_upto(b.children@, row), |c: SyntaxNode| local_name_of(c, src)),
        None => Set::empty(),
    };
    ps.union(ls)
}

/// Collect params, local vars, and for-iterators within the enclosing function,
/// up to (and including) the given position row.
pub fn collect_locals(func: Option<&SyntaxNode>, source: &str, row: usize) -> (names: Vec<String>)
    requires
        match func {
            Some(f) => tree_ok(source@, *f),
            None => true,
        },
    ensures
        distinct(names@),
        names_set(names@) == match func {
            Some(f) => local_names(*f, source@, row),
            None => Set::empty(),
        },
{
    let mut names: Vec<String> = Vec::new();
    assert(names_set(names@) =~= Set::empty());
    let func = match func {
        Some(f) => f,
        None => {
            return names;
        },
    };
    match child_by_field_name(func, "parameters") {
        Some(params) => {
            assert(tree_ok(source@, *params));
            collect_param_names_into(params, source, &mut names);
        },
        None => {},
    }
    let ghost after_params = names_set(names@);
    match child_by_field_name(func, "body") {
        Some(body) => {
            assert(tree_ok(source@, *body));
            collect_body_locals(body, source, row, &mut names);
        },
        None => {},
    }
    assert(names_set(names@) =~= local_names(*func, source@, row));
    names
}

// ── File-level names ───────────────────────────────────────────────────────

/// Names of the members of an enum body.
pub open spec fn enum_member_of(m: SyntaxNode, src: Seq<char>) -> Option<Seq<char>> {
    if m.kind@ == "enum_member"@ && field_child(m, "name"@) is Some {
        Some(text_of(src, field_child(m, "name"@)->0))
    } else {
        None
    }
}

/// Names a top-level child adds: the declared name, and an enum's members.
pub open spec fn file_level_of(c: SyntaxNode, src: Seq<char>) -> Set<Seq<char>> {
    if !is_decl_kind(c.kind@) {
        Set::empty()
    } else {
        let own = match decl_name(c, src) {
            Some(n) => set![n],
            None => Set::empty(),
        };
        let members = if c.kind@ == "enum_definition"@ && field_child(c, "body"@) is Some {
            let b = field_child(c, "body"@)->0;
            names_from(b.children@, b.children@.len() as int, |m: SyntaxNode| enum_member_of(m, src))
        } else {
            Set::empty()
        };
        own.union(members)
    }
}

/// All file-level names from the first `k` top-level children.
pub open spec fn file_level_upto(cs: Seq<SyntaxNode>, src: Seq<char>, k: int) -> Set<Seq<char>>
    decreases k,
{
    if k <= 0 || k > cs.len() {
        Set::empty()
    } else {
        file_level_upto(cs, src, k - 1).union(file_level_of(cs[k - 1], src))
    }
}

fn enum_member_name(m: &SyntaxNode, source: &str) -> (r: Option<String>)
    requires
        tree_ok(source@, *m),
    ensures
        match r {
            Some(s) => enum_member_of(*m, source@) == Some(s@),
            None => enum_member_of(*m, source@) is None,
        },
{
    if kind_is(m, "enum_member") {
        match child_by_field_name(m, "name") {
            Some(n) => {
                assert(tree_ok(source@, *n));
                return Some(crate::syntax::node_text(n, source));
            },
            None => {},
        }
    }
    None
}

/// Collect every name declared at file level, including enum members.
pub fn collect_file_level(root: &SyntaxNode, source: &str) -> (names: Vec<String>)
    requires
        tree_ok(source@, *root),
    ensures
        distinct(names@),
        names_set(names@) == file_level_upto(root.children@, source@, root.children@.len() as int),
{
    let mut names: Vec<String> = Vec::new();
    assert(names_set(names@) =~= Set::empty());
    let mut i: usize = 0;
    while i < root.children.len()
        invariant
            i <= root.children@.len(),
            tree_ok(source@, *root),
            distinct(names@),
            names_set(names@) == file_level_upto(root.children@, source@, i as int),
        decreases root.children@.len() - i,
    {
        let child = &root.children[i];
        assert(tree_ok(source@, *child));
        let ghost before = names_set(names@);
        if is_declaration_kind(child.kind.as_str()) {
            match get_declaration_name(child, source) {
                Some(n) => {
                    add_name(&mut names, n);
                },
                None => {},
            }
            let ghost after_own = names_set(names@);
            if kind_is(child, "enum_definition") {
                match child_by_field_name(child, "body") {
                    Some(body) => {
                        assert(tree_ok(source@, *body));
                        let ghost f = |m: SyntaxNode| enum_member_of(m, source@);
                        let mut j: usize = 0;
                        while j < body.children.len()
                            invariant
                                j <= body.children@.len(),
                                tree_ok(source@, *body),
                                f == (|m: SyntaxNode| enum_member_of(m, source@)),
                                distinct(names@),
                                names_set(names@) == after_own.union(names_from(body.children@, j as int, f)),
                            decreases body.children@.len() - j,
                        {
                            proof {
                                lemma_names_from_step(body.children@, j as int, f);
                            }
                            assert(tree_ok(source@, body.children@[j as int]));
                            match enum_member_name(&body.children[j], source) {
                                Some(n) => {
                                    add_name(&mut names, n);
                                },
                                None => {},
                            }
                            j += 1;
                            assert(names_set(names@) =~= after_own.union(names_from(body.children@, j as int, f)));
                        }
                    },
                    None => {},
                }
            }
        }
        i += 1;
        assert(names_set(names@) =~= file_level_upto(root.children@, source@, i as int));
    }
    names
}

/// Collect all names visible at `row` in the file: the parameters and
/// locals of the enclosing function `func` (if any), the file-level names,
/// and the GDScript builtins.
pub fn collect_scope_names(root: &SyntaxNode, source: &str, func: Option<&SyntaxNode>, row: usize) -> (r: ScopeNames)
    requires
        tree_ok(source@, *root),
        match func {
            Some(f) => tree_ok(source@, *f),
            None => true,
        },
    ensures
        distinct(r.locals@),
        distinct(r.file_level@),
        names_set(r.locals@) == match func {
            Some(f) => local_names(*f, source@, row),
            None => Set::empty(),
        },
        names_set(r.file_level@) == file_level_upto(root.children@, source@, root.children@.len() as int),
        r.builtins@.map_values(|s: String| s@) == builtin_names(),
{
    let locals = collect_locals(func, source, row);
    let file_level = collect_file_level(root, source);
    let builtins = gdscript_builtins();
    ScopeNames { locals, file_level, builtins }
}


/// How a scope is named in messages.
pub open spec fn kind_text(k: CollisionKind) -> Seq<char> {
    match k {
        CollisionKind::Local => "local variable"@,
        CollisionKind::FileLevel => "file-level declaration"@,
        CollisionKind::Builtin => "GDScript builtin"@,
    }
}

/// The scope in which `name` collides with a name visible at `row`.
pub open spec fn scope_collision(name: Seq<char>, root: SyntaxNode, src: Seq<char>, func: Option<SyntaxNode>, row: usize) -> Option<CollisionKind> {
    let locals = match func {
        Some(f) => local_names(f, src, row),
        None => Set::empty(),
    };
    if locals.contains(name) {
        Some(CollisionKind::Local)
    } else if file_level_upto(root.children@, src, root.children@.len() as int).contains(name) {
        Some(CollisionKind::FileLevel)
    } else if builtin_names().contains(name) {
        Some(CollisionKind::Builtin)
    } else {
        None
    }
}

/// The names collected for a position decide collisions as the scope does.
pub proof fn lemma_scope_collision(name: Seq<char>, scope: ScopeNames, root: SyntaxNode, src: Seq<char>, func: Option<SyntaxNode>, row: usize)
    requires
        names_set(scope.locals@) == match func {
            Some(f) => local_names(f, src, row),
            None => Set::empty(),
        },
        names_set(scope.file_level@) == file_level_upto(root.children@, src, root.children@.len() as int),
        scope.builtins@.map_values(|s: String| s@) == builtin_names(),
    ensures
        collision(name, scope) == scope_collision(name, root, src, func, row),
{
    assert(names_set(scope.builtins@).contains(name) == builtin_names().contains(name)) by {
        if builtin_names().contains(name) {
            let i = choose|i: int| 0 <= i < builtin_names().len() && builtin_names()[i] == name;
            assert(scope.builtins@[i]@ == name);
        }
        if names_set(scope.builtins@).contains(name) {
            let i = choose|i: int| 0 <= i < scope.builtins@.len() && scope.builtins@[i]@ == name;
            assert(builtin_names()[i] == name);
        }
    }
}

} // verus!
