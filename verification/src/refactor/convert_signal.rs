//! Convert-signal: move a signal connection between the scene's
//! `[connection]` lines and a `.connect()` call in the script's `_ready()`.
use vstd::prelude::*;

use crate::refactor::{find_top_decl, named_decl};
use crate::syntax::{
    SyntaxNode, child_by_field_name, field_child, node_text, replace_span, span_replaced, text_of,
    tree_ok,
};
use crate::text::{is_blank, blank,
    chars_of, contains, ends_with, extend, extend_str, has_prefix, has_sub, join, join_lines,
    lines, lines_of, starts_with, string_of, trim, trim_end, trimmed, trimmed_end,
};

use crate::parse::{fitting_tree, parse_fitting};

verus! {

/// What a convert-signal run reports.
pub struct ConvertSignalOutput {
    pub signal: String,
    pub from_node: String,
    pub method: String,
    /// `to-code` or `to-scene`.
    pub direction: String,
    pub scene_file: String,
    pub script_file: String,
    pub applied: bool,
}

/// Why a connection could not be moved.
#[derive(PartialEq, Eq, Structural, Clone, Copy, Debug)]
pub enum SignalError {
    /// The scene already holds the `[connection]` line.
    ConnectionExists,
    /// The scene holds no such `[connection]` line.
    ConnectionNotFound,
    /// The script holds no such `.connect()` call.
    ConnectCallNotFound,
    /// The script's `_ready()` has no body.
    ReadyWithoutBody,
}

// ── Connection texts ───────────────────────────────────────────────────────

/// `signal.connect(method)` when `from` is `.`, else `$from.signal.connect(method)`.
pub open spec fn connect_call(from: Seq<char>, signal: Seq<char>, method: Seq<char>) -> Seq<char> {
    if from == "."@ {
        signal + ".connect("@ + method + ")"@
    } else {
        "$"@ + from + "."@ + signal + ".connect("@ + method + ")"@
    }
}

/// `[connection signal="…" from="…" to="…" method="…"]`.
pub open spec fn connection_line(signal: Seq<char>, from: Seq<char>, to: Seq<char>, method: Seq<char>) -> Seq<char> {
    "[connection signal=\""@ + signal + "\" from=\""@ + from + "\" to=\""@ + to + "\" method=\""@
        + method + "\"]"@
}

fn connect_call_chars(from: &str, signal: &str, method: &str) -> (r: Vec<char>)
    ensures
        r@ == connect_call(from@, signal@, method@),
{
    let f = chars_of(from);
    let dot = chars_of(".");
    let mut r: Vec<char> = Vec::new();
    if !crate::text::seq_eq(&f, &dot) {
        extend_str(&mut r, "$");
        extend(&mut r, &f);
        extend_str(&mut r, ".");
    }
    extend_str(&mut r, signal);
    extend_str(&mut r, ".connect(");
    extend_str(&mut r, method);
    extend_str(&mut r, ")");
    r
}

fn connection_line_chars(signal: &str, from: &str, to: &str, method: &str) -> (r: Vec<char>)
    ensures
        r@ == connection_line(signal@, from@, to@, method@),
{
    let mut r: Vec<char> = Vec::new();
    extend_str(&mut r, "[connection signal=\"");
    extend_str(&mut r, signal);
    extend_str(&mut r, "\" from=\"");
    extend_str(&mut r, from);
    extend_str(&mut r, "\" to=\"");
    extend_str(&mut r, to);
    extend_str(&mut r, "\" method=\"");
    extend_str(&mut r, method);
    extend_str(&mut r, "\"]");
    r
}

/// The `.connect()` call that wires `from`'s `signal` to `method`.
pub fn build_connect_call(from: &str, signal: &str, method: &str) -> (r: String)
    ensures
        r@ == connect_call(from@, signal@, method@),
{
    let c = connect_call_chars(from, signal, method);
    string_of(&c)
}

/// The script already makes the `.connect()` call.
pub fn find_connect_call_in_source(source: &str, from: &str, signal: &str, method: &str) -> (r: bool)
    ensures
        r == contains(source@, connect_call(from@, signal@, method@)),
{
    let s = chars_of(source);
    let p = connect_call_chars(from, signal, method);
    has_sub(&s, &p)
}

// ── Scene side ─────────────────────────────────────────────────────────────

/// The scene with the connection line appended: trailing whitespace trimmed,
/// then a line feed (two when the scene had no `[connection` yet), the line,
/// and a final line feed.
pub open spec fn with_connection(source: Seq<char>, line: Seq<char>) -> Seq<char> {
    trim_end(source) + (if contains(source, "[connection"@) {
        "\n"@
    } else {
        "\n\n"@
    }) + line + "\n"@
}

/// Append a `[connection]` line to the scene; refused when the scene already holds it.
pub fn append_connection_line(source: &str, signal: &str, from: &str, to: &str, method: &str) -> (r: Result<String, SignalError>)
    ensures
        match r {
            Ok(s) => !contains(source@, connection_line(signal@, from@, to@, method@)) && s@
                == with_connection(source@, connection_line(signal@, from@, to@, method@)),
            Err(e) => e == SignalError::ConnectionExists && contains(
                source@,
                connection_line(signal@, from@, to@, method@),
            ),
        },
{
    let line = connection_line_chars(signal, from, to, method);
    let s = chars_of(source);
    if has_sub(&s, &line) {
        return Err(SignalError::ConnectionExists);
    }
    let mut out = trimmed_end(&s);
    let marker = chars_of("[connection");
    if has_sub(&s, &marker) {
        extend_str(&mut out, "\n");
    } else {
        extend_str(&mut out, "\n\n");
    }
    extend(&mut out, &line);
    extend_str(&mut out, "\n");
    Ok(string_of(&out))
}

/// Runs of line feeds capped at `k`; also gives the length of the run that
/// ends the input.
pub open spec fn cap_runs(s: Seq<char>, k: nat) -> (Seq<char>, nat)
    decreases s.len(),
{
    if s.len() == 0 {
        (Seq::empty(), 0)
    } else {
        let (o, c) = cap_runs(s.drop_last(), k);
        if s.last() == '\n' {
            if c + 1 <= k {
                (o.push('\n'), c + 1)
            } else {
                (o, c + 1)
            }
        } else {
            (o.push(s.last()), 0)
        }
    }
}

/// The lines whose trimmed text is not `target`, in order.
pub open spec fn lines_without(ls: Seq<Seq<char>>, target: Seq<char>) -> Seq<Seq<char>>
    decreases ls.len(),
{
    if ls.len() == 0 {
        Seq::empty()
    } else {
        let r = lines_without(ls.drop_last(), target);
        if trim(ls.last()) == target {
            r
        } else {
            r.push(ls.last())
        }
    }
}

/// Ends the text with a line feed when it does not already.
pub open spec fn with_final_nl(s: Seq<char>) -> Seq<char> {
    if ends_with(s, "\n"@) {
        s
    } else {
        s.push('\n')
    }
}

/// The scene without the connection line: every line whose trimmed text is
/// the connection line is dropped, the rest joined with line feeds and ended
/// with one, and runs of three or more line feeds collapsed to two.
pub open spec fn without_connection(source: Seq<char>, line: Seq<char>) -> Seq<char> {
    cap_runs(with_final_nl(join(lines_without(lines(source), line), "\n"@)), 2).0
}

/// Some line's trimmed text is `target`.
pub open spec fn has_line(source: Seq<char>, target: Seq<char>) -> bool {
    exists|i: int| 0 <= i < lines(source).len() && trim(#[trigger] lines(source)[i]) == target
}

fn cap_line_feeds(v: &Vec<char>, k: usize) -> (r: Vec<char>)
    ensures
        r@ == cap_runs(v@, k as nat).0,
{
    let mut out: Vec<char> = Vec::new();
    let mut run: usize = 0;
    let mut i: usize = 0;
    while i < v.len()
        invariant
            i <= v@.len(),
            (out@, run as nat) == cap_runs(v@.take(i as int), k as nat),
            run <= i,
        decreases v@.len() - i,
    {
        assert(v@.take(i + 1).drop_last() =~= v@.take(i as int));
        let ch = v[i];
        if ch == '\n' {
            run += 1;
            if run <= k {
                out.push(ch);
            }
        } else {
            run = 0;
            out.push(ch);
        }
        i += 1;
    }
    assert(v@.take(i as int) =~= v@);
    out
}

pub(crate) fn end_with_nl(v: &mut Vec<char>)
    ensures
        final(v)@ == with_final_nl(old(v)@),
{
    let nl = ['\n'];
    assert(nl@ =~= "\n"@) by {
        reveal_strlit("\n");
    }
    if !crate::text::has_suffix(v, &nl) {
        v.push('\n');
    }
}

/// Remove a `[connection]` line from the scene.
pub fn remove_connection_line(source: &str, signal: &str, from: &str, to: &str, method: &str) -> (r: Result<String, SignalError>)
    ensures
        match r {
            Ok(s) => has_line(source@, connection_line(signal@, from@, to@, method@)) && s@
                == without_connection(source@, connection_line(signal@, from@, to@, method@)),
            Err(e) => e == SignalError::ConnectionNotFound && !has_line(
                source@,
                connection_line(signal@, from@, to@, method@),
            ),
        },
{
    let target = connection_line_chars(signal, from, to, method);
    let s = chars_of(source);
    let ls = lines_of(&s);
    let ghost lv = lines(source@);
    let mut kept: Vec<Vec<char>> = Vec::new();
    let mut found = false;
    let mut i: usize = 0;
    while i < ls.len()
        invariant
            i <= ls@.len(),
            ls@.len() == lv.len(),
            lv == lines(source@),
            forall|j: int| 0 <= j < ls@.len() ==> (#[trigger] ls@[j])@ == lv[j],
            kept@.map_values(|v: Vec<char>| v@) == lines_without(lv.take(i as int), target@),
            found == exists|j: int| 0 <= j < i && trim(#[trigger] lv[j]) == target@,
        decreases ls@.len() - i,
    {
        let ghost k0 = kept@;
        assert(lv.take(i + 1).drop_last() =~= lv.take(i as int));
        let t = trimmed(&ls[i]);
        if crate::text::seq_eq(&t, &target) {
            found = true;
        } else {
            let l = crate::text::slice_of(&ls[i], 0, ls[i].len());
            assert(l@ =~= lv[i as int]);
            kept.push(l);
            assert(kept@.map_values(|v: Vec<char>| v@) =~= k0.map_values(|v: Vec<char>| v@).push(
                lv[i as int],
            ));
        }
        i += 1;
    }
    assert(lv.take(i as int) =~= lv);
    if !found {
        return Err(SignalError::ConnectionNotFound);
    }
    let sep = ['\n'];
    assert(sep@ =~= "\n"@) by {
        reveal_strlit("\n");
    }
    let mut joined = join_lines(&kept, &sep);
    end_with_nl(&mut joined);
    let out = cap_line_feeds(&joined, 2);
    Ok(string_of(&out))
}

// ── Script side ────────────────────────────────────────────────────────────

/// The first line, from `i` on, whose trimmed text starts with `pat`.
pub open spec fn first_call_line(ls: Seq<Seq<char>>, pat: Seq<char>, i: int) -> Option<int>
    decreases ls.len() - i,
{
    if i < 0 || i >= ls.len() {
        None
    } else if starts_with(trim(ls[i]), pat) {
        Some(i)
    } else {
        first_call_line(ls, pat, i + 1)
    }
}

/// The script without the `.connect()` call: the first line whose trimmed
/// text starts with the call is dropped, the rest joined with line feeds and
/// ended with one.
pub open spec fn without_connect_call(source: Seq<char>, pat: Seq<char>) -> Option<Seq<char>> {
    match first_call_line(lines(source), pat, 0) {
        Some(k) => Some(with_final_nl(join(lines(source).remove(k), "\n"@))),
        None => None,
    }
}

/// Remove the `.connect()` call from the script.
pub fn remove_connect_call(source: &str, from: &str, signal: &str, method: &str) -> (r: Result<String, SignalError>)
    ensures
        match r {
            Ok(s) => without_connect_call(source@, connect_call(from@, signal@, method@)) == Some(s@),
            Err(e) => e == SignalError::ConnectCallNotFound && without_connect_call(
                source@,
                connect_call(from@, signal@, method@),
            ) is None,
        },
{
    let pat = connect_call_chars(from, signal, method);
    let s = chars_of(source);
    let ls = lines_of(&s);
    let ghost lv = lines(source@);
    let mut kept: Vec<Vec<char>> = Vec::new();
    let mut found: Option<usize> = None;
    let mut i: usize = 0;
    while i < ls.len()
        invariant
            i <= ls@.len(),
            ls@.len() == lv.len(),
            lv == lines(source@),
            forall|j: int| 0 <= j < ls@.len() ==> (#[trigger] ls@[j])@ == lv[j],
            match found {
                Some(k) => k < i && first_call_line(lv, pat@, 0) == Some(k as int)
                    && kept@.map_values(|v: Vec<char>| v@) == lv.take(i as int).remove(k as int),
                None => first_call_line(lv, pat@, 0) == first_call_line(lv, pat@, i as int)
                    && kept@.map_values(|v: Vec<char>| v@) == lv.take(i as int),
            },
        decreases ls@.len() - i,
    {
        let ghost k0 = kept@;
        let t = trimmed(&ls[i]);
        if found.is_none() && has_prefix(&t, &pat) {
            found = Some(i);
            assert(lv.take(i + 1).remove(i as int) =~= lv.take(i as int));
        } else {
            let l = crate::text::slice_of(&ls[i], 0, ls[i].len());
            assert(l@ =~= lv[i as int]);
            kept.push(l);
            assert(kept@.map_values(|v: Vec<char>| v@) =~= k0.map_values(|v: Vec<char>| v@).push(
                lv[i as int],
            ));
            match found {
                Some(k) => {
                    assert(lv.take(i + 1).remove(k as int) =~= lv.take(i as int).remove(k as int).push(
                        lv[i as int],
                    ));
                },
                None => {
                    assert(lv.take(i + 1) =~= lv.take(i as int).push(lv[i as int]));
                },
            }
        }
        i += 1;
    }
    assert(lv.take(i as int) =~= lv);
    if found.is_none() {
        return Err(SignalError::ConnectCallNotFound);
    }
    let sep = ['\n'];
    assert(sep@ =~= "\n"@) by {
        reveal_strlit("\n");
    }
    let mut joined = join_lines(&kept, &sep);
    end_with_nl(&mut joined);
    Ok(string_of(&joined))
}

/// The script's top-level `_ready` function, if any.
pub open spec fn ready_func(root: SyntaxNode, src: Seq<char>) -> Option<SyntaxNode> {
    named_decl(root, src, "_ready"@)
}

/// The script with `_ready()` given a `pass` body when it has none or an
/// empty one; otherwise unchanged.
pub open spec fn ready_with_body(src: Seq<char>, root: SyntaxNode) -> Seq<char> {
    match ready_func(root, src) {
        Some(f) => match field_child(f, "body"@) {
            Some(b) => if is_blank(text_of(src, b)) {
                span_replaced(src, b.start_byte as int, b.end_byte as int, "\n\tpass"@)
            } else {
                src
            },
            None => span_replaced(src, f.end_byte as int, f.end_byte as int, "\n\tpass"@),
        },
        None => src,
    }
}

/// Make sure `_ready()` is not left without statements.
pub fn ensure_ready_has_body(source: &str, root: &SyntaxNode) -> (r: String)
    requires
        tree_ok(source@, *root),
    ensures
        r@ == ready_with_body(source@, *root),
{
    let f = match find_top_decl(root, source, "_ready") {
        Some(f) => f,
        None => {
            return String::from_str(source);
        },
    };
    match child_by_field_name(f, "body") {
        Some(b) => {
            assert(tree_ok(source@, *b));
            let t = node_text(b, source);
            let tc = chars_of(t.as_str());
            if blank(&tc) {
                replace_span(source, b.start_byte, b.end_byte, "\n\tpass")
            } else {
                String::from_str(source)
            }
        },
        None => replace_span(source, f.end_byte, f.end_byte, "\n\tpass"),
    }
}

/// The script with `line` added to `_ready()`: a `pass` body is replaced, any
/// other body gets the line after it; with no `_ready()`, one is appended.
pub open spec fn ready_with_line(src: Seq<char>, root: SyntaxNode, line: Seq<char>) -> Result<Seq<char>, SignalError> {
    match ready_func(root, src) {
        Some(f) => match field_child(f, "body"@) {
            Some(b) => Ok(
                if trim(text_of(src, b)) == "pass"@ {
                    span_replaced(src, b.start_byte as int, b.end_byte as int, "\n\t"@ + line)
                } else {
                    span_replaced(src, b.end_byte as int, b.end_byte as int, "\n\t"@ + line)
                },
            ),
            None => Err(SignalError::ReadyWithoutBody),
        },
        None => Ok(trim_end(src) + "\nfunc _ready():\n\t"@ + line + "\n"@),
    }
}

/// Add a line at the end of `_ready()`, creating the function if needed.
pub fn add_to_ready(source: &str, root: &SyntaxNode, line: &str) -> (r: Result<String, SignalError>)
    requires
        tree_ok(source@, *root),
    ensures
        match r {
            Ok(s) => ready_with_line(source@, *root, line@) == Ok::<Seq<char>, SignalError>(s@),
            Err(e) => ready_with_line(source@, *root, line@) == Err::<Seq<char>, SignalError>(e),
        },
{
    let mut added = String::from_str("\n\t");
    crate::text::push_str(&mut added, line);
    match find_top_decl(root, source, "_ready") {
        Some(f) => {
            match child_by_field_name(f, "body") {
                Some(b) => {
                    assert(tree_ok(source@, *b));
                    let t = node_text(b, source);
                    let tc = chars_of(t.as_str());
                    let tt = trimmed(&tc);
                    let pass = chars_of("pass");
                    if crate::text::seq_eq(&tt, &pass) {
                        Ok(replace_span(source, b.start_byte, b.end_byte, added.as_str()))
                    } else {
                        Ok(replace_span(source, b.end_byte, b.end_byte, added.as_str()))
                    }
                },
                None => Err(SignalError::ReadyWithoutBody),
            }
        },
        None => {
            let s = chars_of(source);
            let mut out = trimmed_end(&s);
            extend_str(&mut out, "\nfunc _ready():\n\t");
            extend_str(&mut out, line);
            extend_str(&mut out, "\n");
            Ok(string_of(&out))
        },
    }
}

// ── The script a scene node carries ────────────────────────────────────────

/// A node of a scene, as far as finding its script goes.
pub struct SceneNode {
    pub name: String,
    /// The parent path (`.` for children of the root); none for the root.
    pub parent: Option<String>,
    /// The `script` property, if set.
    pub script: Option<String>,
}

/// An `[ext_resource]` of a scene.
pub struct ExtResource {
    pub id: String,
    pub path: String,
}

/// The scene node a path names: `.` is the node without a parent; a child
/// of the root is named by its name; any other node by `parent/name`.
pub open spec fn names_node(n: SceneNode, node_path: Seq<char>) -> bool {
    if node_path == "."@ {
        n.parent is None
    } else {
        match n.parent {
            Some(p) => if p@ == "."@ {
                n.name@ == node_path
            } else {
                p@ + "/"@ + n.name@ == node_path
            },
            None => n.name@ == node_path,
        }
    }
}

/// The first index, from `i` on, of a node that the path names.
pub open spec fn scene_node_index(nodes: Seq<SceneNode>, node_path: Seq<char>, i: int) -> Option<int>
    decreases nodes.len() - i,
{
    if i < 0 || i >= nodes.len() {
        None
    } else if names_node(nodes[i], node_path) {
        Some(i)
    } else {
        scene_node_index(nodes, node_path, i + 1)
    }
}

fn node_named_by(n: &SceneNode, node_path: &str) -> (r: bool)
    ensures
        r == names_node(*n, node_path@),
{
    let np = chars_of(node_path);
    let name = chars_of(n.name.as_str());
    let dot = chars_of(".");
    if crate::text::seq_eq(&np, &dot) {
        return n.parent.is_none();
    }
    match &n.parent {
        Some(p) => {
            let pc = chars_of(p.as_str());
            if crate::text::seq_eq(&pc, &dot) {
                crate::text::seq_eq(&name, &np)
            } else {
                let mut full = pc;
                extend_str(&mut full, "/");
                extend(&mut full, &name);
                crate::text::seq_eq(&full, &np)
            }
        },
        None => crate::text::seq_eq(&name, &np),
    }
}

/// Find the node of a scene that a node path names.
pub fn find_scene_node(nodes: &[SceneNode], node_path: &str) -> (r: Option<usize>)
    ensures
        match r {
            Some(i) => i < nodes@.len() && scene_node_index(nodes@, node_path@, 0) == Some(i as int),
            None => scene_node_index(nodes@, node_path@, 0) is None,
        },
{
    let mut i: usize = 0;
    while i < nodes.len()
        invariant
            i <= nodes@.len(),
            scene_node_index(nodes@, node_path@, 0) == scene_node_index(nodes@, node_path@, i as int),
        decreases nodes@.len() - i,
    {
        if node_named_by(&nodes[i], node_path) {
            return Some(i);
        }
        i += 1;
    }
    None
}

/// `s.strip_prefix(p).and_then(|r| r.strip_suffix(q))`.
pub open spec fn between(s: Seq<char>, p: Seq<char>, q: Seq<char>) -> Option<Seq<char>> {
    if starts_with(s, p) && ends_with(s.skip(p.len() as int), q) {
        Some(s.subrange(p.len() as int, s.len() - q.len()))
    } else {
        None
    }
}

/// The resource id of `ExtResource("id")` (or `ExtResource( "id" )`).
pub open spec fn ext_resource_ref(r: Seq<char>) -> Option<Seq<char>> {
    match between(r, "ExtResource(\""@, "\")"@) {
        Some(id) => Some(id),
        None => between(r, "ExtResource( \""@, "\" )"@),
    }
}

fn strip_between(s: &Vec<char>, p: &str, q: &str) -> (r: Option<Vec<char>>)
    ensures
        match r {
            Some(v) => between(s@, p@, q@) == Some(v@),
            None => between(s@, p@, q@) is None,
        },
{
    let pc = chars_of(p);
    let qc = chars_of(q);
    if !has_prefix(s, &pc) {
        return None;
    }
    let rest = crate::text::slice_of(s, pc.len(), s.len());
    assert(rest@ =~= s@.skip(p@.len() as int));
    if !crate::text::has_suffix(&rest, &qc) {
        return None;
    }
    Some(crate::text::slice_of(s, pc.len(), s.len() - qc.len()))
}

/// Where a script reference points.
pub enum ScriptTarget {
    /// A `res://` path.
    ResPath(String),
    /// A path relative to the scene's directory.
    Relative(String),
}

/// Why a script reference cannot be resolved.
#[derive(Debug)]
pub enum ScriptRefError {
    /// `ExtResource("id")` names no `[ext_resource]` of the scene.
    ExtResourceNotFound(String),
}

/// Where a script reference points: the path of the ext_resource it names,
/// a `res://` path as given, or else a path relative to the scene.
pub open spec fn script_target(script_ref: Seq<char>, ext: Seq<ExtResource>) -> Result<(bool, Seq<char>), Seq<char>> {
    match ext_resource_ref(script_ref) {
        Some(id) => match ext_index(ext, id, 0) {
            Some(k) => Ok((true, ext[k].path@)),
            None => Err(id),
        },
        None => Ok((starts_with(script_ref, "res://"@), script_ref)),
    }
}

/// The first ext_resource, from `i` on, with the given id.
pub open spec fn ext_index(ext: Seq<ExtResource>, id: Seq<char>, i: int) -> Option<int>
    decreases ext.len() - i,
{
    if i < 0 || i >= ext.len() {
        None
    } else if ext[i].id@ == id {
        Some(i)
    } else {
        ext_index(ext, id, i + 1)
    }
}

/// Resolve a script reference (`ExtResource("id")`, `res://…`, or a path
/// relative to the scene) to where it points.
pub fn resolve_script_ref(script_ref: &str, ext: &[ExtResource]) -> (r: Result<ScriptTarget, ScriptRefError>)
    ensures
        match r {
            Ok(ScriptTarget::ResPath(p)) => script_target(script_ref@, ext@) == Ok::<(bool, Seq<char>), Seq<char>>((true, p@)),
            Ok(ScriptTarget::Relative(p)) => script_target(script_ref@, ext@) == Ok::<(bool, Seq<char>), Seq<char>>((false, p@)),
            Err(ScriptRefError::ExtResourceNotFound(id)) => script_target(script_ref@, ext@) == Err::<(bool, Seq<char>), Seq<char>>(id@),
        },
{
    let s = chars_of(script_ref);
    let id = match strip_between(&s, "ExtResource(\"", "\")") {
        Some(v) => Some(v),
        None => strip_between(&s, "ExtResource( \"", "\" )"),
    };
    assert(match id {
        Some(v) => ext_resource_ref(script_ref@) == Some(v@),
        None => ext_resource_ref(script_ref@) is None,
    });
    match id {
        Some(idv) => {
            let mut k: usize = 0;
            while k < ext.len()
                invariant
                    k <= ext@.len(),
                    ext_index(ext@, idv@, 0) == ext_index(ext@, idv@, k as int),
                    ext_resource_ref(script_ref@) == Some(idv@),
                decreases ext@.len() - k,
            {
                let e = chars_of(ext[k].id.as_str());
                if crate::text::seq_eq(&e, &idv) {
                    assert(ext_index(ext@, idv@, k as int) == Some(k as int));
                    let p = chars_of(ext[k].path.as_str());
                    return Ok(ScriptTarget::ResPath(string_of(&p)));
                }
                k += 1;
            }
            Err(ScriptRefError::ExtResourceNotFound(string_of(&idv)))
        },
        None => {
            let res = chars_of("res://");
            if has_prefix(&s, &res) {
                Ok(ScriptTarget::ResPath(String::from_str(script_ref)))
            } else {
                Ok(ScriptTarget::Relative(String::from_str(script_ref)))
            }
        },
    }
}

/// The project-relative part of a `res://` path.
pub fn res_relative(res_path: &str) -> (r: Option<String>)
    ensures
        match r {
            Some(p) => starts_with(res_path@, "res://"@) && p@ == res_path@.skip(6),
            None => !starts_with(res_path@, "res://"@),
        },
{
    let s = chars_of(res_path);
    let res = chars_of("res://");
    proof {
        reveal_strlit("res://");
    }
    if has_prefix(&s, &res) {
        let t = crate::text::slice_of(&s, 6, s.len());
        Some(string_of(&t))
    } else {
        None
    }
}


// ── Choosing the connection ────────────────────────────────────────────────

/// A `[connection]` of a scene.
pub struct SceneConnection {
    pub signal: String,
    pub from: String,
    pub to: String,
    pub method: String,
}

/// The first connection of `signal` from `from` to `method`.
pub open spec fn connection_index(conns: Seq<SceneConnection>, signal: Seq<char>, from: Seq<char>, method: Seq<char>, i: int) -> Option<int>
    decreases conns.len() - i,
{
    if i < 0 || i >= conns.len() {
        None
    } else if conns[i].signal@ == signal && conns[i].from@ == from && conns[i].method@ == method {
        Some(i)
    } else {
        connection_index(conns, signal, from, method, i + 1)
    }
}

/// Find the scene's connection of `signal` from `from` to `method`; the
/// message names it when there is none.
pub fn find_connection(conns: &[SceneConnection], signal: &str, from: &str, method: &str) -> (r: Result<usize, String>)
    ensures
        match r {
            Ok(i) => connection_index(conns@, signal@, from@, method@, 0) == Some(i as int),
            Err(m) => connection_index(conns@, signal@, from@, method@, 0) is None && m@ == "connection not found: "@
                + from@ + "."@ + signal@ + " \u{2192} "@ + method@,
        },
{
    let mut i: usize = 0;
    while i < conns.len()
        invariant
            i <= conns@.len(),
            connection_index(conns@, signal@, from@, method@, 0) == connection_index(conns@, signal@, from@, method@, i as int),
        decreases conns@.len() - i,
    {
        let c = &conns[i];
        if crate::refactor::str_eq(c.signal.as_str(), signal) && crate::refactor::str_eq(c.from.as_str(), from)
            && crate::refactor::str_eq(c.method.as_str(), method) {
            return Ok(i);
        }
        i += 1;
    }
    proof {
        reveal_with_fuel(crate::text::concat_views, 7);
    }
    Err(crate::text::concat_strs(&["connection not found: ", from, ".", signal, " \u{2192} ", method]))
}

/// The `.connect()` call to add to the script, refused when the script
/// already holds it.
pub fn new_connect_call(script: &str, from: &str, signal: &str, method: &str) -> (r: Result<String, String>)
    ensures
        match r {
            Ok(c) => !contains(script@, connect_call(from@, signal@, method@)) && c@ == connect_call(from@, signal@, method@),
            Err(m) => contains(script@, connect_call(from@, signal@, method@)) && m@ == "duplicate: "@ + connect_call(
                from@,
                signal@,
                method@,
            ) + " already exists in script"@,
        },
{
    let call = build_connect_call(from, signal, method);
    if find_connect_call_in_source(script, from, signal, method) {
        proof {
            reveal_with_fuel(crate::text::concat_views, 4);
        }
        return Err(crate::text::concat_strs(&["duplicate: ", call.as_str(), " already exists in script"]));
    }
    Ok(call)
}

/// Add a line to `_ready()` in a source text, parsing it first: `None`
/// when the parser gives no tree that fits the text.
pub fn add_to_ready_in(source: &str, line: &str) -> (r: Option<Result<String, SignalError>>)
    ensures
        r is None <==> fitting_tree(source@) is None,
        r matches Some(x) ==> match x {
            Ok(s) => ready_with_line(source@, fitting_tree(source@)->0, line@) == Ok::<Seq<char>, SignalError>(s@),
            Err(e) => ready_with_line(source@, fitting_tree(source@)->0, line@) == Err::<Seq<char>, SignalError>(e),
        },
{
    match parse_fitting(source) {
        Some(root) => Some(add_to_ready(source, &root, line)),
        None => None,
    }
}

/// Give an emptied `_ready()` a `pass` body in a source text, parsing it
/// first: `None` when the parser gives no tree that fits the text.
pub fn ensure_ready_has_body_in(source: &str) -> (r: Option<String>)
    ensures
        r is None <==> fitting_tree(source@) is None,
        r matches Some(t) ==> t@ == ready_with_body(source@, fitting_tree(source@)->0),
{
    match parse_fitting(source) {
        Some(root) => Some(ensure_ready_has_body(source, &root)),
        None => None,
    }
}

} // verus!
