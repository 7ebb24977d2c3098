//! Inline-variable: replace a local variable's uses with its value.
use vstd::prelude::*;
use vstd::utf8::encode_utf8;

use crate::refactor::inline_method::{
    field_text, rep_view, sorted_reps, spans_in, spliced, string_texts,
};
use crate::refactor::{named_decl, nl_starts, str_eq};
use crate::syntax::{
    SyntaxNode, field_child, kind_is, node_text, span_ok, text_between, text_of, tree_ok, well_nested,
};
use crate::text::{chars_of, concat_strs, concat_views, opt_view, string_of};

use crate::parse::{chain_at, fitting_tree, nodes_at, parse_fitting};
use crate::refactor::introduce_parameter::{enclosing_function, enclosing_node};

verus! {

/// What an inline-variable run reports.
pub struct InlineVariableOutput {
    pub variable: String,
    pub expression: String,
    pub definition_line: u32,
    pub reference_count: u32,
    pub file: String,
    pub applied: bool,
    pub warnings: Vec<String>,
}

// ── Finding the declaration ────────────────────────────────────────────────

/// A `var` or `const` statement named `name`.
pub open spec fn is_var_named(c: SyntaxNode, src: Seq<char>, name: Seq<char>) -> bool {
    (c.kind@ == "variable_statement"@ || c.kind@ == "const_statement"@) && field_text(c, "name"@, src) == Some(name)
}

/// The position of the first `var`/`const` named `name` among a body's statements.
pub open spec fn var_in_body(body: SyntaxNode, src: Seq<char>, name: Seq<char>) -> Option<int> {
    crate::syntax::first_where(body.children@, |c: SyntaxNode| is_var_named(c, src, name))
}

/// Find a local variable declaration among a body's statements.
#[verifier::rlimit(40)]
pub fn find_var_in_body(body: &SyntaxNode, source: &str, name: &str) -> (r: Option<usize>)
    requires
        tree_ok(source@, *body),
    ensures
        match r {
            Some(i) => i < body.children@.len() && var_in_body(*body, source@, name@) == Some(i as int),
            None => var_in_body(*body, source@, name@) is None,
        },
{
    let ghost p = |c: SyntaxNode| is_var_named(c, source@, name@);
    let mut i: usize = 0;
    while i < body.children.len()
        invariant
            i <= body.children@.len(),
            tree_ok(source@, *body),
            p == (|c: SyntaxNode| is_var_named(c, source@, name@)),
            forall|j: int| 0 <= j < i ==> !p(#[trigger] body.children@[j]),
        decreases body.children@.len() - i,
    {
        let c = &body.children[i];
        assert(tree_ok(source@, *c));
        if kind_is(c, "variable_statement") || kind_is(c, "const_statement") {
            match crate::syntax::child_by_field_name(c, "name") {
                Some(nn) => {
                    assert(tree_ok(source@, *nn));
                    if str_eq(node_text(nn, source).as_str(), name) {
                        proof {
                            crate::syntax::lemma_first_where(body.children@, p, i as int);
                        }
                        return Some(i);
                    }
                },
                None => {},
            }
        }
        i += 1;
    }
    proof {
        crate::syntax::lemma_first_where_none(body.children@, p);
    }
    None
}

/// Where a variable is declared: in the enclosing function's body (the body
/// and the position there), else at top level (the position among the
/// root's children); none when neither declares it.
pub open spec fn var_declaration(root: SyntaxNode, src: Seq<char>, name: Seq<char>, func: Option<SyntaxNode>) -> Option<(bool, SyntaxNode, int)> {
    let local = match func {
        Some(f) => match field_child(f, "body"@) {
            Some(b) => match var_in_body(b, src, name) {
                Some(i) => Some((true, b, i)),
                None => None,
            },
            None => None,
        },
        None => None,
    };
    match local {
        Some(x) => Some(x),
        None => match crate::refactor::decl_by_name_index(root.children@, src, name) {
            Some(i) => Some((false, root, i)),
            None => None,
        },
    }
}

/// Find the declaration of `name`: the parent it stands in (the function's
/// body, or the root), its position there, and whether it is local.
pub fn find_var_declaration<'a>(root: &'a SyntaxNode, source: &str, name: &str, func: Option<&'a SyntaxNode>) -> (r: Option<(bool, &'a SyntaxNode, usize)>)
    requires
        tree_ok(source@, *root),
        func matches Some(f) ==> tree_ok(source@, *f),
    ensures
        match r {
            Some((local, parent, i)) => var_declaration(*root, source@, name@, crate::refactor::inline_method::opt_node(func)) == Some((local, *parent, i as int))
                && i < parent.children@.len() && tree_ok(source@, *parent),
            None => var_declaration(*root, source@, name@, crate::refactor::inline_method::opt_node(func)) is None,
        },
{
    match func {
        Some(f) => match crate::syntax::child_by_field_name(f, "body") {
            Some(b) => {
                assert(tree_ok(source@, *b));
                match find_var_in_body(b, source, name) {
                    Some(i) => return Some((true, b, i)),
                    None => {},
                }
            },
            None => {},
        },
        None => {},
    }
    match crate::refactor::find_declaration_by_name(root, source, name) {
        Some(d) => {
            let ghost j = choose|j: int| 0 <= j < root.children@.len() && crate::refactor::decl_by_name_index(root.children@, source@, name@) == Some(j) && root.children@[j] == *d;
            let i = index_of_decl(root, source, name);
            Some((false, root, i))
        },
        None => None,
    }
}

fn index_of_decl(root: &SyntaxNode, source: &str, name: &str) -> (r: usize)
    requires
        tree_ok(source@, *root),
        crate::refactor::decl_by_name_index(root.children@, source@, name@) is Some,
    ensures
        crate::refactor::decl_by_name_index(root.children@, source@, name@) == Some(r as int),
        r < root.children@.len(),
{
    let ghost p = |c: SyntaxNode| crate::refactor::is_decl_kind(c.kind@) && crate::refactor::decl_name(c, source@) == Some(name@);
    let ghost k = crate::refactor::decl_by_name_index(root.children@, source@, name@)->0;
    let mut i: usize = 0;
    while i < root.children.len()
        invariant
            i <= root.children@.len(),
            tree_ok(source@, *root),
            p == (|c: SyntaxNode| crate::refactor::is_decl_kind(c.kind@) && crate::refactor::decl_name(c, source@) == Some(name@)),
            k == crate::refactor::decl_by_name_index(root.children@, source@, name@)->0,
            crate::refactor::decl_by_name_index(root.children@, source@, name@) == Some(k),
            forall|j: int| 0 <= j < i ==> !p(#[trigger] root.children@[j]),
        decreases root.children@.len() - i,
    {
        let c = &root.children[i];
        assert(tree_ok(source@, *c));
        if crate::refactor::is_declaration_kind(c.kind.as_str()) {
            match crate::refactor::get_declaration_name(c, source) {
                Some(dn) => {
                    if str_eq(dn.as_str(), name) {
                        proof {
                            crate::syntax::lemma_first_where(root.children@, p, i as int);
                        }
                        return i;
                    }
                },
                None => {},
            }
        }
        i += 1;
    }
    proof {
        crate::syntax::lemma_first_where_none(root.children@, p);
    }
    0
}

// ── Checks on the declaration ──────────────────────────────────────────────

/// An `@onready` annotation node.
pub open spec fn onready_annotation(a: SyntaxNode, src: Seq<char>) -> bool {
    a.kind@ == "annotation"@ && (crate::syntax::kind_child(a, "identifier"@) matches Some(j) && text_of(
        src,
        a.children@[j],
    ) == "onready"@)
}

/// The declaration carries `@onready` among its own annotations.
pub open spec fn inline_onready(d: SyntaxNode, src: Seq<char>) -> bool {
    exists|i: int, j: int|
        0 <= i < d.children@.len() && d.children@[i].kind@ == "annotations"@ && 0 <= j
            < d.children@[i].children@.len() && onready_annotation(d.children@[i].children@[j], src)
}

/// An `@onready` among the annotations (and comments) right before position `j`.
pub open spec fn preceding_onready(cs: Seq<SyntaxNode>, src: Seq<char>, j: int) -> bool
    decreases j + 1,
{
    if j < 0 || j >= cs.len() {
        false
    } else if cs[j].kind@ == "annotation"@ {
        onready_annotation(cs[j], src) || preceding_onready(cs, src, j - 1)
    } else if cs[j].kind@ == "comment"@ {
        preceding_onready(cs, src, j - 1)
    } else {
        false
    }
}

fn is_onready(a: &SyntaxNode, source: &str) -> (r: bool)
    requires
        tree_ok(source@, *a),
    ensures
        r == onready_annotation(*a, source@),
{
    if !kind_is(a, "annotation") {
        return false;
    }
    match crate::syntax::first_child_of_kind(a, "identifier") {
        Some(j) => {
            assert(tree_ok(source@, a.children@[j as int]));
            str_eq(node_text(&a.children[j], source).as_str(), "onready")
        },
        None => false,
    }
}

/// Whether the declaration at position `i` of `parent` is `@onready`: among
/// its own annotations, or in the annotations right before it.
#[verifier::rlimit(40)]
pub fn has_onready_annotation(parent: &SyntaxNode, i: usize, source: &str) -> (r: bool)
    requires
        tree_ok(source@, *parent),
        i < parent.children@.len(),
    ensures
        r == (inline_onready(parent.children@[i as int], source@) || preceding_onready(
            parent.children@,
            source@,
            i - 1,
        )),
{
    let d = &parent.children[i];
    assert(tree_ok(source@, *d));
    let mut k: usize = 0;
    while k < d.children.len()
        invariant
            k <= d.children@.len(),
            tree_ok(source@, *d),
            *d == parent.children@[i as int],
            forall|a: int, b: int|
                0 <= a < k && d.children@[a].kind@ == "annotations"@ && 0 <= b < d.children@[a].children@.len()
                    ==> !onready_annotation(d.children@[a].children@[b], source@),
        decreases d.children@.len() - k,
    {
        let c = &d.children[k];
        assert(tree_ok(source@, *c));
        if kind_is(c, "annotations") {
            let mut m: usize = 0;
            while m < c.children.len()
                invariant
                    m <= c.children@.len(),
                    tree_ok(source@, *c),
                    *c == d.children@[k as int],
                    k < d.children@.len(),
                    c.kind@ == "annotations"@,
                    *d == parent.children@[i as int],
                    forall|b: int| 0 <= b < m ==> !onready_annotation(c.children@[b], source@),
                decreases c.children@.len() - m,
            {
                assert(tree_ok(source@, c.children@[m as int]));
                if is_onready(&c.children[m], source) {
                    assert(d.children@[k as int].children@[m as int] == c.children@[m as int]);
                    assert(0 <= k < d.children@.len() && d.children@[k as int].kind@ == "annotations"@ && 0 <= m
                        < d.children@[k as int].children@.len() && onready_annotation(d.children@[k as int].children@[m as int], source@));
                    return true;
                }
                m += 1;
            }
        }
        k += 1;
    }
    assert(!inline_onready(parent.children@[i as int], source@));
    let mut j: usize = i;
    while j > 0
        invariant
            !inline_onready(parent.children@[i as int], source@),
            j <= i,
            i < parent.children@.len(),
            tree_ok(source@, *parent),
            preceding_onready(parent.children@, source@, i - 1) == preceding_onready(parent.children@, source@, j - 1),
        decreases j,
    {
        let c = &parent.children[j - 1];
        assert(tree_ok(source@, *c));
        if kind_is(c, "annotation") {
            if is_onready(c, source) {
                return true;
            }
        } else if !kind_is(c, "comment") {
            return false;
        }
        j -= 1;
    }
    false
}

/// The type the declaration states (not an inferred `:=`), which inlining loses.
pub open spec fn stated_type(d: SyntaxNode, src: Seq<char>) -> Option<Seq<char>> {
    match field_child(d, "type"@) {
        Some(t) => if t.kind@ == "inferred_type"@ {
            None
        } else {
            Some(text_of(src, t))
        },
        None => None,
    }
}

/// Extract the stated type annotation text of a variable declaration.
pub fn extract_type_annotation_text(decl: &SyntaxNode, source: &str) -> (r: Option<String>)
    requires
        tree_ok(source@, *decl),
    ensures
        opt_view(r) == stated_type(*decl, source@),
{
    match crate::syntax::child_by_field_name(decl, "type") {
        Some(t) => {
            assert(tree_ok(source@, *t));
            if kind_is(t, "inferred_type") {
                None
            } else {
                Some(node_text(t, source))
            }
        },
        None => None,
    }
}

/// An assignment to `name` that starts after byte `after`, in a subtree.
pub open spec fn reassigned(n: SyntaxNode, src: Seq<char>, name: Seq<char>, after: usize) -> bool
    decreases n, n.children@.len() + 1,
{
    ((n.kind@ == "assignment"@ || n.kind@ == "augmented_assignment"@) && n.start_byte > after && field_text(
        n,
        "left"@,
        src,
    ) == Some(name)) || reassigned_in_children(n, src, name, after, n.children@.len() as int)
}

/// Such an assignment under the first `k` children.
pub open spec fn reassigned_in_children(n: SyntaxNode, src: Seq<char>, name: Seq<char>, after: usize, k: int) -> bool
    decreases n, k,
{
    if k <= 0 || k > n.children@.len() {
        false
    } else {
        reassigned_in_children(n, src, name, after, k - 1) || reassigned(n.children@[k - 1], src, name, after)
    }
}

proof fn lemma_reassigned_grow(n: SyntaxNode, src: Seq<char>, name: Seq<char>, after: usize, k: int, m: int)
    requires
        0 <= k <= m <= n.children@.len(),
        reassigned_in_children(n, src, name, after, k),
    ensures
        reassigned_in_children(n, src, name, after, m),
    decreases m - k,
{
    if k < m {
        lemma_reassigned_grow(n, src, name, after, k, m - 1);
    }
}

/// Check if `var_name` is assigned after byte `after_byte` in the scope.
#[verifier::rlimit(40)]
pub fn is_reassigned(node: &SyntaxNode, source: &str, var_name: &str, after_byte: usize) -> (r: bool)
    requires
        tree_ok(source@, *node),
    ensures
        r == reassigned(*node, source@, var_name@, after_byte),
    decreases node,
{
    if (kind_is(node, "assignment") || kind_is(node, "augmented_assignment")) && node.start_byte > after_byte {
        match crate::syntax::child_by_field_name(node, "left") {
            Some(l) => {
                assert(tree_ok(source@, *l));
                if str_eq(node_text(l, source).as_str(), var_name) {
                    return true;
                }
            },
            None => {},
        }
    }
    let mut i: usize = 0;
    while i < node.children.len()
        invariant
            i <= node.children@.len(),
            tree_ok(source@, *node),
            !((node.kind@ == "assignment"@ || node.kind@ == "augmented_assignment"@) && node.start_byte > after_byte
                && field_text(*node, "left"@, source@) == Some(var_name@)),
            !reassigned_in_children(*node, source@, var_name@, after_byte, i as int),
        decreases node.children@.len() - i,
    {
        assert(tree_ok(source@, node.children@[i as int]));
        if is_reassigned(&node.children[i], source, var_name, after_byte) {
            proof {
                lemma_reassigned_grow(*node, source@, var_name@, after_byte, i + 1, node.children@.len() as int);
            }
            return true;
        }
        i += 1;
    }
    false
}

// ── Usages ─────────────────────────────────────────────────────────────────

/// An initializer that needs brackets inside a larger expression.
pub open spec fn complex_init(k: Seq<char>) -> bool {
    k == "binary_operator"@ || k == "ternary_expression"@ || k == "unary_operator"@
}

/// A parent in which such an initializer needs brackets.
pub open spec fn binding_parent(k: Seq<char>) -> bool {
    k == "binary_operator"@ || k == "subscript"@ || k == "attribute"@ || k == "unary_operator"@
}

/// What replaces one usage: the initializer, in brackets where it needs them.
pub open spec fn usage_text(init: Seq<char>, ik: Seq<char>, pk: Option<Seq<char>>) -> Seq<char> {
    if complex_init(ik) && (pk matches Some(p) && binding_parent(p)) {
        seq!['('] + init + seq![')']
    } else {
        init
    }
}

/// The usages of `name` in a subtree outside the declaration's span `d`, as
/// replacements by the initializer; `pk` is the kind of the subtree's parent.
pub open spec fn usage_reps(n: SyntaxNode, src: Seq<char>, name: Seq<char>, d: (usize, usize), init: Seq<char>, ik: Seq<char>, pk: Option<Seq<char>>) -> Seq<(int, int, Seq<char>)>
    decreases n, n.children@.len() + 1,
{
    if n.kind@ == "identifier"@ && text_of(src, n) == name && !(n.start_byte >= d.0 && n.end_byte <= d.1) {
        seq![(n.start_byte as int, n.end_byte as int, usage_text(init, ik, pk))]
    } else {
        usage_reps_in_children(n, src, name, d, init, ik, n.children@.len() as int)
    }
}

/// The usages under the first `k` children.
pub open spec fn usage_reps_in_children(n: SyntaxNode, src: Seq<char>, name: Seq<char>, d: (usize, usize), init: Seq<char>, ik: Seq<char>, k: int) -> Seq<(int, int, Seq<char>)>
    decreases n, k,
{
    if k <= 0 || k > n.children@.len() {
        Seq::empty()
    } else {
        usage_reps_in_children(n, src, name, d, init, ik, k - 1) + usage_reps(
            n.children@[k - 1],
            src,
            name,
            d,
            init,
            ik,
            Some(n.kind@),
        )
    }
}

fn wrapped_init(init: &[char], ik: &str, pk: Option<&str>) -> (r: Vec<char>)
    ensures
        r@ == usage_text(init@, ik@, match pk {
            Some(p) => Some(p@),
            None => None,
        }),
{
    let complex = str_eq(ik, "binary_operator") || str_eq(ik, "ternary_expression") || str_eq(ik, "unary_operator");
    let binding = match pk {
        Some(p) => str_eq(p, "binary_operator") || str_eq(p, "subscript") || str_eq(p, "attribute") || str_eq(p, "unary_operator"),
        None => false,
    };
    if complex && binding {
        let mut v: Vec<char> = Vec::new();
        v.push('(');
        crate::text::extend(&mut v, init);
        v.push(')');
        assert(v@ =~= seq!['('] + init@ + seq![')']);
        v
    } else {
        crate::text::slice_of(init, 0, init.len())
    }
}

/// Collect the usages of `var_name` outside the declaration as replacements.
#[verifier::rlimit(40)]
pub fn collect_usages(
    node: &SyntaxNode,
    source: &str,
    var_name: &str,
    decl: (usize, usize),
    init: &[char],
    ik: &str,
    pk: Option<&str>,
    out: &mut Vec<(usize, usize, Vec<char>)>,
)
    requires
        tree_ok(source@, *node),
        well_nested(*node),
        sorted_reps(rep_view(old(out)@)),
        spans_in(source@, rep_view(old(out)@)),
        old(out)@.len() > 0 ==> old(out)@.last().1 <= node.start_byte,
    ensures
        rep_view(final(out)@) == rep_view(old(out)@) + usage_reps(*node, source@, var_name@, decl, init@, ik@, match pk {
            Some(p) => Some(p@),
            None => None,
        }),
        sorted_reps(rep_view(final(out)@)),
        spans_in(source@, rep_view(final(out)@)),
        final(out)@.len() > 0 ==> final(out)@.last().1 <= node.end_byte,
        final(out)@.len() > old(out)@.len() ==> final(out)@[old(out)@.len() as int].0 >= node.start_byte,
    decreases node,
{
    let ghost start = rep_view(out@);
    if kind_is(node, "identifier") && str_eq(node_text(node, source).as_str(), var_name) && !(node.start_byte
        >= decl.0 && node.end_byte <= decl.1) {
        let v = wrapped_init(init, ik, pk);
        proof {
            crate::refactor::inline_method::lemma_sorted_push(start, (node.start_byte as int, node.end_byte as int, v@));
        }
        let ghost vv = v@;
        out.push((node.start_byte, node.end_byte, v));
        assert(rep_view(out@) =~= start.push((node.start_byte as int, node.end_byte as int, vv)));
        return;
    }
    let ghost mid = rep_view(out@);
    let mut i: usize = 0;
    assert(rep_view(out@) =~= mid + usage_reps_in_children(*node, source@, var_name@, decl, init@, ik@, 0));
    while i < node.children.len()
        invariant
            i <= node.children@.len(),
            tree_ok(source@, *node),
            well_nested(*node),
            rep_view(out@) == mid + usage_reps_in_children(*node, source@, var_name@, decl, init@, ik@, i as int),
            sorted_reps(rep_view(out@)),
            spans_in(source@, rep_view(out@)),
            out@.len() > 0 ==> out@.last().1 <= (if i == 0 {
                node.start_byte
            } else {
                node.children@[i - 1].end_byte
            }),
            out@.len() > mid.len() ==> out@[mid.len() as int].0 >= node.start_byte,
            mid.len() == old(out)@.len(),
            mid == start,
            i > 0 ==> node.children@[i - 1].end_byte <= node.end_byte,
        decreases node.children@.len() - i,
    {
        let c = &node.children[i];
        assert(tree_ok(source@, *c));
        assert(well_nested(*c));
        if i > 0 {
            assert(node.children@[i - 1].end_byte <= c.start_byte);
        }
        let ghost bout = out@;
        collect_usages(c, source, var_name, decl, init, ik, Some(node.kind.as_str()), out);
        proof {
            if bout.len() > mid.len() {
                assert(rep_view(out@)[mid.len() as int] == rep_view(bout)[mid.len() as int]);
            }
        }
        assert(rep_view(out@) =~= mid + usage_reps_in_children(*node, source@, var_name@, decl, init@, ik@, i + 1));
        i += 1;
    }
    assert(rep_view(out@) =~= start + usage_reps(*node, source@, var_name@, decl, init@, ik@, match pk {
        Some(p) => Some(p@),
        None => None,
    }));
}

// ── Inlining ───────────────────────────────────────────────────────────────

/// Whether the variable named by `ident` can be inlined: where it is
/// declared (local or not, the parent, the position), or the message of why not.
#[verifier::opaque]
pub open spec fn inline_var_check(
    root: SyntaxNode,
    src: Seq<char>,
    ident: SyntaxNode,
    func: Option<SyntaxNode>,
    line: usize,
    column: usize,
) -> Result<(bool, SyntaxNode, int), Seq<char>> {
    let name = text_of(src, ident);
    if ident.kind@ != "identifier"@ && ident.kind@ != "name"@ {
        Err("expected identifier at "@ + crate::text::decimal(line as nat) + ":"@ + crate::text::decimal(column as nat)
            + ", found '"@ + ident.kind@ + "'"@)
    } else {
        match var_declaration(root, src, name, func) {
            None => Err("cannot find declaration of '"@ + name + "' in this file"@),
            Some((local, parent, i)) => decl_check(root, src, name, func, local, parent, i),
        }
    }
}

/// The checks on the declaration found.
#[verifier::opaque]
pub open spec fn decl_check(root: SyntaxNode, src: Seq<char>, name: Seq<char>, func: Option<SyntaxNode>, local: bool, parent: SyntaxNode, i: int) -> Result<(bool, SyntaxNode, int), Seq<char>> {
    let d = parent.children@[i];
    if d.kind@ == "const_statement"@ {
        Err("cannot inline constant '"@ + name + "' \u{2014} constants should stay as named references"@)
    } else if d.kind@ != "variable_statement"@ {
        Err("'"@ + name + "' is not a variable declaration (found "@ + d.kind@ + ")"@)
    } else if inline_onready(d, src) || preceding_onready(parent.children@, src, i - 1) {
        Err("cannot inline @onready variable '"@ + name + "' \u{2014} its value depends on scene tree readiness"@)
    } else if field_child(d, "value"@) is None {
        Err("variable '"@ + name + "' has no initializer"@)
    } else {
        let scope = if local {
            func->0
        } else {
            root
        };
        if reassigned(scope, src, name, d.end_byte) {
            Err("variable '"@ + name + "' is reassigned after declaration \u{2014} cannot safely inline"@)
        } else {
            Ok((local, parent, i))
        }
    }
}

/// What inlining a variable produces.
pub struct InlineVarPlan {
    pub variable: String,
    pub expression: String,
    /// The declaration's 1-based line.
    pub definition_line: u32,
    pub reference_count: u32,
    pub warnings: Vec<String>,
    /// The file with every usage replaced (the declaration still in place).
    pub new_source: String,
}

/// The warnings: no usages; a stated type that inlining loses.
pub open spec fn inline_var_warnings(name: Seq<char>, usages: nat, ty: Option<Seq<char>>) -> Seq<Seq<char>> {
    (if usages == 0 {
        seq!["variable '"@ + name + "' has no usages \u{2014} only the declaration will be removed"@]
    } else {
        Seq::empty()
    }) + match ty {
        Some(t) => seq!["type annotation ': "@ + t + "' will be lost after inlining"@],
        None => Seq::empty(),
    }
}

#[verifier::rlimit(60)]
fn check_decl(
    root: &SyntaxNode,
    source: &str,
    name: &str,
    func: Option<&SyntaxNode>,
    local: bool,
    parent: &SyntaxNode,
    i: usize,
) -> (r: Result<(), String>)
    requires
        tree_ok(source@, *root),
        tree_ok(source@, *parent),
        i < parent.children@.len(),
        func matches Some(f) ==> tree_ok(source@, *f),
        local ==> func is Some,
    ensures
        match r {
            Ok(()) => decl_check(*root, source@, name@, crate::refactor::inline_method::opt_node(func), local, *parent, i as int)
                == Ok::<_, Seq<char>>((local, *parent, i as int)) && field_child(parent.children@[i as int], "value"@) is Some,
            Err(m) => decl_check(*root, source@, name@, crate::refactor::inline_method::opt_node(func), local, *parent, i as int)
                == Err::<(bool, SyntaxNode, int), _>(m@),
        },
{
    proof {
        reveal_with_fuel(concat_views, 6);
        reveal(decl_check);
    }
    let d = &parent.children[i];
    assert(tree_ok(source@, *d));
    if kind_is(d, "const_statement") {
        return Err(concat_strs(&["cannot inline constant '", name, "' \u{2014} constants should stay as named references"]));
    }
    if !kind_is(d, "variable_statement") {
        return Err(concat_strs(&["'", name, "' is not a variable declaration (found ", d.kind.as_str(), ")"]));
    }
    if has_onready_annotation(parent, i, source) {
        return Err(concat_strs(&["cannot inline @onready variable '", name, "' \u{2014} its value depends on scene tree readiness"]));
    }
    if crate::syntax::child_by_field_name(d, "value").is_none() {
        return Err(concat_strs(&["variable '", name, "' has no initializer"]));
    }
    let scope: &SyntaxNode = if local {
        func.unwrap()
    } else {
        root
    };
    if is_reassigned(scope, source, name, d.end_byte) {
        return Err(concat_strs(&["variable '", name, "' is reassigned after declaration \u{2014} cannot safely inline"]));
    }
    Ok(())
}

/// Check that the variable named by `ident` can be inlined; gives where it
/// is declared.
#[verifier::rlimit(60)]
pub fn check_inline_variable<'a>(
    root: &'a SyntaxNode,
    source: &str,
    ident: &SyntaxNode,
    func: Option<&'a SyntaxNode>,
    line: usize,
    column: usize,
) -> (r: Result<(bool, &'a SyntaxNode, usize), String>)
    requires
        tree_ok(source@, *root),
        tree_ok(source@, *ident),
        func matches Some(f) ==> tree_ok(source@, *f),
    ensures
        match r {
            Ok((local, parent, i)) => inline_var_check(*root, source@, *ident, crate::refactor::inline_method::opt_node(func), line, column)
                == Ok::<_, Seq<char>>((local, *parent, i as int)) && i < parent.children@.len() && tree_ok(source@, *parent)
                && (local ==> func is Some) && field_child(parent.children@[i as int], "value"@) is Some,
            Err(m) => inline_var_check(*root, source@, *ident, crate::refactor::inline_method::opt_node(func), line, column)
                == Err::<(bool, SyntaxNode, int), _>(m@),
        },
{
    proof {
        reveal_with_fuel(concat_views, 8);
        reveal(inline_var_check);
    }
    let name = node_text(ident, source);
    if !kind_is(ident, "identifier") && !kind_is(ident, "name") {
        let l = crate::text::decimal_string(line);
        let c = crate::text::decimal_string(column);
        return Err(concat_strs(&["expected identifier at ", l.as_str(), ":", c.as_str(), ", found '", ident.kind.as_str(), "'"]));
    }
    let (local, parent, i) = match find_var_declaration(root, source, name.as_str(), func) {
        Some(x) => x,
        None => return Err(concat_strs(&["cannot find declaration of '", name.as_str(), "' in this file"])),
    };
    check_decl(root, source, name.as_str(), func, local, parent, i)?;
    Ok((local, parent, i))
}

/// Replace every usage of `name` in the scope, outside the declaration `d`,
/// by `d`'s initializer; gives the initializer, the number of usages and the file.
#[verifier::rlimit(60)]
fn replace_usages(scope: &SyntaxNode, source: &str, name: &str, d: &SyntaxNode) -> (r: (String, usize, String))
    requires
        tree_ok(source@, *scope),
        well_nested(*scope),
        tree_ok(source@, *d),
        field_child(*d, "value"@) is Some,
    ensures
        ({
            let init = field_child(*d, "value"@)->0;
            let reps = usage_reps(*scope, source@, name@, (d.start_byte, d.end_byte), text_of(source@, init), init.kind@, None);
            &&& r.0@ == text_of(source@, init)
            &&& r.1 == reps.len()
            &&& r.2@ == spliced(source@, reps, 0, encode_utf8(source@).len() as int)
        }),
{
    let init = crate::syntax::child_by_field_name(d, "value").unwrap();
    assert(tree_ok(source@, *init));
    let init_text = node_text(init, source);
    let ic = chars_of(init_text.as_str());
    let mut reps: Vec<(usize, usize, Vec<char>)> = Vec::new();
    collect_usages(scope, source, name, (d.start_byte, d.end_byte), &ic, init.kind.as_str(), None, &mut reps);
    let n = source.as_bytes().len();
    proof {
        vstd::utf8::encode_utf8_valid_utf8(source@);
        vstd::utf8::is_char_boundary_start_end_of_seq(encode_utf8(source@));
        crate::refactor::inline_method::lemma_within(rep_view(reps@), scope.start_byte as int, scope.end_byte as int);
    }
    assert forall|k: int| 0 <= k < reps@.len() implies 0 <= (#[trigger] reps@[k]).0 && reps@[k].1 <= n by {
        assert(rep_view(reps@)[k] == (reps@[k].0 as int, reps@[k].1 as int, reps@[k].2@));
    }
    let out = crate::refactor::inline_method::splice_reps(source, &reps, 0, n);
    (init_text, reps.len(), string_of(&out))
}

/// What planning inline-variable gives: the variable, its expression, the
/// usages replaced and the warnings; or the check's message.
pub open spec fn inline_var_outcome(
    src: Seq<char>,
    root: SyntaxNode,
    ident: SyntaxNode,
    func: Option<SyntaxNode>,
    line: usize,
    column: usize,
    r: Result<InlineVarPlan, String>,
) -> bool {
    match r {
        Ok(p) => inline_var_check(root, src, ident, func, line, column) matches Ok(
            (local, parent, i),
        ) && {
            let d = parent.children@[i];
            let name = text_of(src, ident);
            let init = field_child(d, "value"@)->0;
            let scope = if local {
                func->0
            } else {
                root
            };
            let reps = usage_reps(scope, src, name, (d.start_byte, d.end_byte), text_of(src, init), init.kind@, None);
            &&& p.variable@ == name
            &&& p.expression@ == text_of(src, init)
            &&& p.definition_line == (d.start_row as u32).wrapping_add(1)
            &&& p.reference_count == reps.len() as u32
            &&& string_texts(p.warnings@) == inline_var_warnings(name, reps.len(), stated_type(d, src))
            &&& p.new_source@ == spliced(src, reps, 0, encode_utf8(src).len() as int)
        },
        Err(m) => inline_var_check(root, src, ident, func, line, column)
            == Err::<(bool, SyntaxNode, int), _>(m@),
    }
}

/// Inline the variable named by `ident` (found at the 1-based `line` and
/// `column`): every usage in its scope is replaced by its initializer.
#[verifier::rlimit(80)]
pub fn plan_inline_variable(
    root: &SyntaxNode,
    source: &str,
    ident: &SyntaxNode,
    func: Option<&SyntaxNode>,
    line: usize,
    column: usize,
) -> (r: Result<InlineVarPlan, String>)
    requires
        tree_ok(source@, *root),
        well_nested(*root),
        tree_ok(source@, *ident),
        func matches Some(f) ==> tree_ok(source@, *f) && well_nested(*f),
    ensures
        inline_var_outcome(source@, *root, *ident, crate::refactor::inline_method::opt_node(func), line, column, r),
{
    let (local, parent, i) = check_inline_variable(root, source, ident, func, line, column)?;
    let name = node_text(ident, source);
    let d = &parent.children[i];
    assert(tree_ok(source@, *d));
    let scope: &SyntaxNode = if local {
        func.unwrap()
    } else {
        root
    };
    let (init_text, count, out) = replace_usages(scope, source, name.as_str(), d);
    let ty = extract_type_annotation_text(d, source);
    let mut warnings: Vec<String> = Vec::new();
    proof {
        reveal_with_fuel(concat_views, 4);
    }
    if count == 0 {
        warnings.push(concat_strs(&["variable '", name.as_str(), "' has no usages \u{2014} only the declaration will be removed"]));
    }
    match &ty {
        Some(t) => warnings.push(concat_strs(&["type annotation ': ", t.as_str(), "' will be lost after inlining"])),
        None => {},
    }
    assert(string_texts(warnings@) =~= inline_var_warnings(name@, count as nat, stated_type(*d, source@)));
    let definition_line = (#[verifier::truncate] (d.start_row as u32)).wrapping_add(1);
    let reference_count = #[verifier::truncate] (count as u32);
    Ok(InlineVarPlan { variable: name, expression: init_text, definition_line, reference_count, warnings, new_source: out })
}

/// The file without the lines `first..=last` (0-based).
pub open spec fn without_lines(src: Seq<char>, first: usize, last: usize) -> Seq<char> {
    let b = encode_utf8(src);
    let st = nl_starts(b);
    let e = if last + 1 < st.len() {
        st[last + 1] as int
    } else {
        b.len() as int
    };
    crate::syntax::span_replaced(src, st[first as int] as int, e, Seq::empty())
}

/// Remove the lines `first..=last` (0-based) of the file: where the inlined
/// declaration stands once its usages are replaced.
pub fn remove_declaration_lines(source: &str, first: usize, last: usize) -> (r: String)
    requires
        first <= last,
        first < nl_starts(encode_utf8(source@)).len(),
    ensures
        r@ == without_lines(source@, first, last),
{
    let starts = crate::refactor::line_starts(source);
    let n = source.as_bytes().len();
    proof {
        let b = encode_utf8(source@);
        crate::refactor::lemma_nl_starts(b);
        crate::refactor::lemma_nl_starts_boundary(source@);
        vstd::utf8::encode_utf8_valid_utf8(source@);
        vstd::utf8::is_char_boundary_start_end_of_seq(b);
    }
    let a = starts[first];
    let e = if last < starts.len() - 1 { starts[last + 1] } else { n };
    proof {
        let b = encode_utf8(source@);
        assert(span_ok(source@, a as int, b.len() as int));
        if last < starts.len() - 1 {
            assert(span_ok(source@, e as int, b.len() as int));
            assert(a < e);
        }
    }
    let r = crate::syntax::replace_span(source, a, e, "");
    proof {
        reveal_strlit("");
    }
    r
}

/// Plan inline-variable at a 1-based position of a source text, parsing it
/// first. `None` when the parser gives no tree, or no chain of nodes at the
/// position, that fits the text.
pub fn plan_inline_variable_at(source: &str, line: usize, column: usize) -> (r: Option<Result<InlineVarPlan, String>>)
    requires
        line >= 1,
        column >= 1,
    ensures
        r is None <==> (fitting_tree(source@) is None || chain_at(
            source@,
            (line - 1) as usize,
            (column - 1) as usize,
            (line - 1) as usize,
            (column - 1) as usize,
        ) is None),
        r matches Some(x) ==> chain_at(source@, (line - 1) as usize, (column - 1) as usize, (line - 1) as usize, (column - 1) as usize) matches Some(c)
            && inline_var_outcome(source@, fitting_tree(source@)->0, c[0], enclosing_node(c), line, column, x),
{
    let root = match parse_fitting(source) {
        Some(t) => t,
        None => {
            return None;
        },
    };
    let chain = match nodes_at(source, line - 1, column - 1, line - 1, column - 1) {
        Some(c) => c,
        None => {
            return None;
        },
    };
    let func = match enclosing_function(chain.as_slice()) {
        Some(i) => Some(&chain[i]),
        None => None,
    };
    assert(crate::refactor::inline_method::opt_node(func) == enclosing_node(chain@));
    Some(plan_inline_variable(&root, source, &chain[0], func, line, column))
}

} // verus!
