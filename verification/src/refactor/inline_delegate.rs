//! Inline-delegate: replace calls to a function that only forwards to another.
use vstd::prelude::*;

use crate::edits::{applied, edit_views, edits_valid};
use crate::parse::{fitting_tree, parse_fitting};
use crate::refactor::delete_symbol::ReferenceHit;
use crate::refactor::inline_method::{
    arg_texts, body_stmts, call_args, func_params, is_arg, stmt_indices, string_texts,
};
use crate::refactor::move_symbol::{callee, callee_index};
use crate::refactor::named_decl;
use crate::syntax::{
    SyntaxNode, field_child, first_where, kind_child, kind_is, named_child, node_text, text_between, text_of,
    tree_ok, well_nested,
};
use crate::text::{concat_strs, concat_views, decimal};
use crate::edits::{apply_edits, edits_desc, sort_edits_desc};
use crate::refactor::extract_class::cross_file_count;
use crate::refactor::inline_method::site_call;
use crate::refactor::str_eq;

verus! {

/// What an inline-delegate run reports.
pub struct InlineDelegateOutput {
    pub function: String,
    pub delegate_target: String,
    pub call_sites_replaced: u32,
    pub function_deleted: bool,
    pub file: String,
    pub applied: bool,
    pub warnings: Vec<String>,
}

// ── The delegate ───────────────────────────────────────────────────────────

/// The first child that holds arguments.
pub open spec fn args_child(n: SyntaxNode) -> Option<int> {
    first_where(n.children@, |c: SyntaxNode| c.kind@ == "arguments"@ || c.kind@ == "argument_list"@)
}

/// The method call a delegate body makes through an attribute.
pub open spec fn attr_delegate(expr: SyntaxNode, src: Seq<char>) -> Result<(Seq<char>, Seq<Seq<char>>), Seq<char>> {
    match kind_child(expr, "attribute_call"@) {
        None => Err("not a delegate: not a method call"@),
        Some(ai) => {
            let ac = expr.children@[ai];
            match args_child(ac) {
                Some(k) => {
                    let a = ac.children@[k];
                    Ok(
                        (
                            text_between(src, expr.start_byte as int, a.start_byte as int),
                            arg_texts(a.children@, src, a.children@.len() as int),
                        ),
                    )
                },
                None => Ok((text_of(src, expr), Seq::empty())),
            }
        },
    }
}

/// The call a delegate body makes: its target (the function name, or the
/// receiver and method up to the arguments) and argument texts; or the message.
pub open spec fn delegate_info(expr: SyntaxNode, src: Seq<char>) -> Result<(Seq<char>, Seq<Seq<char>>), Seq<char>> {
    if expr.kind@ == "call"@ {
        match callee(expr) {
            None => Err("not a delegate: cannot find function name"@),
            Some(f) => Ok((text_of(src, f), call_args(expr, src))),
        }
    } else if expr.kind@ == "attribute"@ {
        attr_delegate(expr, src)
    } else {
        Err("not a delegate: body is a "@ + expr.kind@ + " expression, not a function call"@)
    }
}

fn arguments_child(node: &SyntaxNode) -> (r: Option<usize>)
    ensures
        match r {
            Some(i) => i < node.children@.len() && args_child(*node) == Some(i as int),
            None => args_child(*node) is None,
        },
{
    let ghost p = |c: SyntaxNode| c.kind@ == "arguments"@ || c.kind@ == "argument_list"@;
    let mut i: usize = 0;
    while i < node.children.len()
        invariant
            i <= node.children@.len(),
            p == (|c: SyntaxNode| c.kind@ == "arguments"@ || c.kind@ == "argument_list"@),
            forall|j: int| 0 <= j < i ==> !p(#[trigger] node.children@[j]),
        decreases node.children@.len() - i,
    {
        if kind_is(&node.children[i], "arguments") || kind_is(&node.children[i], "argument_list") {
            proof {
                crate::syntax::lemma_first_where(node.children@, p, i as int);
            }
            return Some(i);
        }
        i += 1;
    }
    proof {
        crate::syntax::lemma_first_where_none(node.children@, p);
    }
    None
}

fn arg_list(a: &SyntaxNode, source: &str) -> (r: Vec<String>)
    requires
        tree_ok(source@, *a),
    ensures
        string_texts(r@) == arg_texts(a.children@, source@, a.children@.len() as int),
{
    let mut out: Vec<String> = Vec::new();
    let mut i: usize = 0;
    while i < a.children.len()
        invariant
            i <= a.children@.len(),
            tree_ok(source@, *a),
            string_texts(out@) == arg_texts(a.children@, source@, i as int),
        decreases a.children@.len() - i,
    {
        let c = &a.children[i];
        assert(tree_ok(source@, *c));
        let ghost before = string_texts(out@);
        if c.is_named && !kind_is(c, "(") && !kind_is(c, ")") && !kind_is(c, ",") {
            out.push(node_text(c, source));
            assert(string_texts(out@) =~= before + seq![text_of(source@, *c)]);
        } else {
            assert(string_texts(out@) =~= before + Seq::<Seq<char>>::empty());
        }
        i += 1;
    }
    out
}

#[verifier::rlimit(60)]
fn attribute_delegate(expr: &SyntaxNode, source: &str) -> (r: Result<(String, Vec<String>), String>)
    requires
        tree_ok(source@, *expr),
        well_nested(*expr),
    ensures
        match r {
            Ok((t, args)) => attr_delegate(*expr, source@) == Ok::<_, Seq<char>>((t@, string_texts(args@))),
            Err(m) => attr_delegate(*expr, source@) == Err::<(Seq<char>, Seq<Seq<char>>), _>(m@),
        },
{
    proof {
        reveal_with_fuel(concat_views, 2);
    }
        let ai = match crate::syntax::first_child_of_kind(expr, "attribute_call") {
        Some(i) => i,
        None => return Err(concat_strs(&["not a delegate: not a method call"])),
    };
    let ac = &expr.children[ai];
    assert(tree_ok(source@, *ac));
    return match arguments_child(ac) {
        Some(k) => {
            let a = &ac.children[k];
            proof {
                lemma_grandchild_span(source@, *expr, ai as int, k as int);
            }
            let t = crate::syntax::slice_str(source, expr.start_byte, a.start_byte);
            Ok((t, arg_list(a, source)))
        },
        None => {
            let e: Vec<String> = Vec::new();
            assert(string_texts(e@) =~= Seq::<Seq<char>>::empty());
            Ok((node_text(expr, source), e))
        },
    };

}

proof fn lemma_grandchild_span(src: Seq<char>, n: SyntaxNode, i: int, k: int)
    requires
        tree_ok(src, n),
        well_nested(n),
        0 <= i < n.children@.len(),
        0 <= k < n.children@[i].children@.len(),
    ensures
        crate::syntax::span_ok(src, n.start_byte as int, n.children@[i].children@[k].start_byte as int),
        tree_ok(src, n.children@[i].children@[k]),
{
    let c = n.children@[i];
    assert(tree_ok(src, c));
    assert(well_nested(c));
    let g = c.children@[k];
    assert(tree_ok(src, g));
    assert(n.start_byte <= c.start_byte);
    assert(c.start_byte <= g.start_byte);
}

/// Extract the delegate target and arguments from the delegate expression.
#[verifier::rlimit(40)]
pub fn extract_delegate_info(expr: &SyntaxNode, source: &str) -> (r: Result<(String, Vec<String>), String>)
    requires
        tree_ok(source@, *expr),
        well_nested(*expr),
    ensures
        match r {
            Ok((t, args)) => delegate_info(*expr, source@) == Ok::<_, Seq<char>>((t@, string_texts(args@))),
            Err(m) => delegate_info(*expr, source@) == Err::<(Seq<char>, Seq<Seq<char>>), _>(m@),
        },
{
    proof {
        reveal_with_fuel(concat_views, 4);
    }
    if kind_is(expr, "call") {
        let ci = match callee_index(expr) {
            Some(i) => i,
            None => return Err(concat_strs(&["not a delegate: cannot find function name"])),
        };
        assert(tree_ok(source@, expr.children@[ci as int]));
        let t = node_text(&expr.children[ci], source);
        let args = crate::refactor::inline_method::extract_call_arguments(expr, source);
        return Ok((t, args));
    }
    if kind_is(expr, "attribute") {
        return attribute_delegate(expr, source);
    }
    Err(concat_strs(&["not a delegate: body is a ", expr.kind.as_str(), " expression, not a function call"]))
}

/// Whether `name` is a pure delegate: the function's definition and the
/// target its calls go to instead; or the message of why not.
#[verifier::opaque]
pub open spec fn delegate_check(root: SyntaxNode, src: Seq<char>, name: Seq<char>) -> Result<(SyntaxNode, Seq<char>), Seq<char>> {
    match named_decl(root, src, name) {
        None => Err("no function named '"@ + name + "' found"@),
        Some(d) => if d.kind@ != "function_definition"@ && d.kind@ != "constructor_definition"@ {
            Err("'"@ + name + "' is not a function"@)
        } else {
            body_delegate(d, src)
        },
    }
}

/// The delegate a function's body makes, if it is a single statement.
#[verifier::opaque]
pub open spec fn body_delegate(d: SyntaxNode, src: Seq<char>) -> Result<(SyntaxNode, Seq<char>), Seq<char>> {
    match field_child(d, "body"@) {
        None => Err("function has no body"@),
        Some(b) => {
            let ss = body_stmts(b);
            if ss.len() != 1 {
                Err("not a delegate: function has "@ + decimal(ss.len()) + " statement(s), expected 1"@)
            } else {
                stmt_delegate(d, ss[0], src)
            }
        },
    }
}

/// The delegate the single statement of `d`'s body makes.
#[verifier::opaque]
pub open spec fn stmt_delegate(d: SyntaxNode, stmt: SyntaxNode, src: Seq<char>) -> Result<(SyntaxNode, Seq<char>), Seq<char>> {
    if stmt.kind@ == "expression_statement"@ || stmt.kind@ == "return_statement"@ {
        match named_child(stmt, 0) {
            None => Err("empty statement"@),
            Some(e) => match delegate_info(e, src) {
                Err(m) => Err(m),
                Ok((t, args)) => {
                    let ps = func_params(d, src);
                    if ps.len() == args.len() && forall|i: int| 0 <= i < ps.len() ==> ps[i].0 == args[i] {
                        Ok((d, t))
                    } else {
                        Err("not a pure delegate: arguments are not forwarded in order"@)
                    }
                },
            },
        }
    } else {
        Err("not a delegate: body is a "@ + stmt.kind@ + " statement"@)
    }
}

#[verifier::rlimit(60)]
fn check_stmt_delegate(d: &SyntaxNode, stmt: &SyntaxNode, source: &str) -> (r: Result<String, String>)
    requires
        tree_ok(source@, *d),
        tree_ok(source@, *stmt),
        well_nested(*stmt),
    ensures
        match r {
            Ok(t) => stmt_delegate(*d, *stmt, source@) == Ok::<_, Seq<char>>((*d, t@)),
            Err(m) => stmt_delegate(*d, *stmt, source@) == Err::<(SyntaxNode, Seq<char>), _>(m@),
        },
{
    proof {
        reveal_with_fuel(concat_views, 4);
        reveal(stmt_delegate);
    }
    if !kind_is(stmt, "expression_statement") && !kind_is(stmt, "return_statement") {
        return Err(concat_strs(&["not a delegate: body is a ", stmt.kind.as_str(), " statement"]));
    }
    let e = match crate::syntax::named_child_at(stmt, 0) {
        Some(e) => e,
        None => return Err(concat_strs(&["empty statement"])),
    };
    proof {
        crate::syntax::lemma_named_child_in(*stmt, 0);
    }
    assert(tree_ok(source@, *e));
    assert(well_nested(*e));
    let (t, args) = extract_delegate_info(e, source)?;
    let params = crate::refactor::inline_method::extract_function_params(d, source);
    let ghost ps = func_params(*d, source@);
    assert(params@.map_values(|p: crate::refactor::change_signature::ParamInfo| crate::refactor::inline_method::param_view(p)) == ps);
    if params.len() != args.len() {
        return Err(concat_strs(&["not a pure delegate: arguments are not forwarded in order"]));
    }
    let ghost fwd = forall|j: int| 0 <= j < ps.len() ==> ps[j].0 == string_texts(args@)[j];
    assert(stmt_delegate(*d, *stmt, source@) == if fwd {
        Ok::<(SyntaxNode, Seq<char>), Seq<char>>((*d, t@))
    } else {
        Err::<(SyntaxNode, Seq<char>), Seq<char>>("not a pure delegate: arguments are not forwarded in order"@)
    });
    let mut i: usize = 0;
    while i < params.len()
        invariant
            fwd == (forall|j: int| 0 <= j < ps.len() ==> ps[j].0 == string_texts(args@)[j]),
            stmt_delegate(*d, *stmt, source@) == if fwd {
                Ok::<(SyntaxNode, Seq<char>), Seq<char>>((*d, t@))
            } else {
                Err::<(SyntaxNode, Seq<char>), Seq<char>>("not a pure delegate: arguments are not forwarded in order"@)
            },
            i <= params@.len(),
            params@.len() == args@.len(),
            ps == params@.map_values(|p: crate::refactor::change_signature::ParamInfo| crate::refactor::inline_method::param_view(p)),
            forall|j: int| 0 <= j < i ==> ps[j].0 == string_texts(args@)[j],
        decreases params@.len() - i,
    {
        if !crate::refactor::str_eq(params[i].name.as_str(), args[i].as_str()) {
            assert(ps[i as int].0 != string_texts(args@)[i as int]);
            let m = concat_strs(&["not a pure delegate: arguments are not forwarded in order"]);
            proof {
                reveal_with_fuel(concat_views, 2);
            }
            return Err(m);
        }
        i += 1;
    }
    Ok(t)
}

fn statement_count_error(n: usize) -> (r: String)
    ensures
        r@ == "not a delegate: function has "@ + decimal(n as nat) + " statement(s), expected 1"@,
{
    let d = crate::text::decimal_string(n);
    proof {
        reveal_with_fuel(concat_views, 4);
    }
    concat_strs(&["not a delegate: function has ", d.as_str(), " statement(s), expected 1"])
}

#[verifier::rlimit(60)]
fn check_body_delegate(d: &SyntaxNode, source: &str) -> (r: Result<String, String>)
    requires
        tree_ok(source@, *d),
        well_nested(*d),
    ensures
        match r {
            Ok(t) => body_delegate(*d, source@) == Ok::<_, Seq<char>>((*d, t@)),
            Err(m) => body_delegate(*d, source@) == Err::<(SyntaxNode, Seq<char>), _>(m@),
        },
{
    proof {
        reveal(body_delegate);
    }
    let bi = match crate::syntax::field_child_index(d, "body") {
        Some(i) => i,
        None => {
            proof {
                reveal_with_fuel(concat_views, 2);
            }
            return Err(concat_strs(&["function has no body"]));
        },
    };
    let b = &d.children[bi];
    proof {
        crate::syntax::lemma_child_ok(source@, *d, bi as int);
    }
    let idx = stmt_indices(b);
    if idx.len() != 1 {
        return Err(statement_count_error(idx.len()));
    }
    let stmt = &b.children[idx[0]];
    proof {
        crate::syntax::lemma_child_ok(source@, *b, idx@[0] as int);
    }
    check_stmt_delegate(d, stmt, source)
}

/// Check that `name` is a pure delegate; gives its definition and the target.
#[verifier::spinoff_prover]
#[verifier::rlimit(80)]
pub fn check_delegate<'a>(root: &'a SyntaxNode, source: &str, name: &str) -> (r: Result<(&'a SyntaxNode, String), String>)
    requires
        tree_ok(source@, *root),
        well_nested(*root),
    ensures
        match r {
            Ok((d, t)) => delegate_check(*root, source@, name@) == Ok::<_, Seq<char>>((*d, t@)) && tree_ok(source@, *d),
            Err(m) => delegate_check(*root, source@, name@) == Err::<(SyntaxNode, Seq<char>), _>(m@),
        },
{
    proof {
        reveal_with_fuel(concat_views, 4);
        reveal(delegate_check);
    }
    let d = match crate::refactor::find_top_decl(root, source, name) {
        Some(d) => d,
        None => return Err(concat_strs(&["no function named '", name, "' found"])),
    };
    let ghost j = choose|j: int| 0 <= j < root.children@.len() && root.children@[j] == *d;
    assert(well_nested(root.children@[j]));
    if !kind_is(d, "function_definition") && !kind_is(d, "constructor_definition") {
        return Err(concat_strs(&["'", name, "' is not a function"]));
    }
    let t = check_body_delegate(d, source)?;
    Ok((d, t))
}


// ── Call sites and their replacement ───────────────────────────────────────

/// For each call of `name` in a subtree outside the rows `a..=b`, in
/// pre-order: the call's start byte and the byte range of the called name.
pub open spec fn delegate_sites(n: SyntaxNode, src: Seq<char>, name: Seq<char>, a: usize, b: usize) -> Seq<(usize, usize, usize)>
    decreases n, n.children@.len() + 1,
{
    (if site_call(n, src, name, a, b) {
        seq![(n.start_byte, callee(n).unwrap().start_byte, callee(n).unwrap().end_byte)]
    } else {
        Seq::empty()
    }) + delegate_sites_in_children(n, src, name, a, b, n.children@.len() as int)
}

/// The sites under the first `k` children.
pub open spec fn delegate_sites_in_children(n: SyntaxNode, src: Seq<char>, name: Seq<char>, a: usize, b: usize, k: int) -> Seq<(usize, usize, usize)>
    decreases n, k,
{
    if k <= 0 || k > n.children@.len() {
        Seq::empty()
    } else {
        delegate_sites_in_children(n, src, name, a, b, k - 1) + delegate_sites(n.children@[k - 1], src, name, a, b)
    }
}

/// Collect the call sites of `func_name` in a subtree, leaving out calls on
/// the rows `func_def_start..=func_def_end`.
pub fn collect_call_sites(
    node: &SyntaxNode,
    func_name: &str,
    source: &str,
    func_def_start: usize,
    func_def_end: usize,
    out: &mut Vec<(usize, usize, usize)>,
)
    requires
        tree_ok(source@, *node),
    ensures
        final(out)@ == old(out)@ + delegate_sites(*node, source@, func_name@, func_def_start, func_def_end),
    decreases node,
{
    let ghost start = out@;
    if kind_is(node, "call") {
        match callee_index(node) {
            Some(ci) => {
                let f = &node.children[ci];
                assert(tree_ok(source@, *f));
                let t = node_text(f, source);
                if str_eq(t.as_str(), func_name) && !kind_is(f, "attribute") && (node.start_row < func_def_start
                    || node.start_row > func_def_end) {
                    out.push((node.start_byte, f.start_byte, f.end_byte));
                }
            },
            None => {},
        }
    }
    let ghost mid = out@;
    assert(mid =~= start + (if site_call(*node, source@, func_name@, func_def_start, func_def_end) {
        seq![(node.start_byte, callee(*node).unwrap().start_byte, callee(*node).unwrap().end_byte)]
    } else {
        Seq::empty()
    }));
    let mut i: usize = 0;
    assert(out@ =~= mid + delegate_sites_in_children(*node, source@, func_name@, func_def_start, func_def_end, 0));
    while i < node.children.len()
        invariant
            i <= node.children@.len(),
            tree_ok(source@, *node),
            out@ == mid + delegate_sites_in_children(*node, source@, func_name@, func_def_start, func_def_end, i as int),
        decreases node.children@.len() - i,
    {
        assert(tree_ok(source@, node.children@[i as int]));
        collect_call_sites(&node.children[i], func_name, source, func_def_start, func_def_end, out);
        assert(out@ =~= mid + delegate_sites_in_children(*node, source@, func_name@, func_def_start, func_def_end, i + 1));
        i += 1;
    }
    assert(out@ =~= start + delegate_sites(*node, source@, func_name@, func_def_start, func_def_end));
}

/// The edits that put `target` in place of each called name.
pub open spec fn site_edits(sites: Seq<(usize, usize, usize)>, target: Seq<char>) -> Seq<(int, int, Seq<char>)> {
    sites.map_values(|s: (usize, usize, usize)| (s.1 as int, s.2 as int, target))
}

/// The edits that replace each call site's name with `target`, last first.
pub fn call_site_edits(sites: &[(usize, usize, usize)], target: &str) -> (r: Vec<(usize, usize, String)>)
    ensures
        edit_views(r@) == edits_desc(site_edits(sites@, target@)),
{
    let mut es: Vec<(usize, usize, String)> = Vec::new();
    let mut i: usize = 0;
    while i < sites.len()
        invariant
            i <= sites@.len(),
            edit_views(es@) == site_edits(sites@.take(i as int), target@),
        decreases sites@.len() - i,
    {
        let ghost prev = edit_views(es@);
        es.push((sites[i].1, sites[i].2, String::from_str(target)));
        assert(edit_views(es@) =~= prev.push((sites@[i as int].1 as int, sites@[i as int].2 as int, target@)));
        assert(sites@.take(i + 1) =~= sites@.take(i as int).push(sites@[i as int]));
        assert(site_edits(sites@.take(i + 1), target@) =~= site_edits(sites@.take(i as int), target@).push(
            (sites@[i as int].1 as int, sites@[i as int].2 as int, target@),
        ));
        i += 1;
    }
    assert(sites@.take(i as int) =~= sites@);
    sort_edits_desc(es)
}

/// The warnings of an inline-delegate run: no call site in the file, and
/// references from other files left as they are.
pub open spec fn delegate_warnings(sites: nat, cross: nat) -> Seq<Seq<char>> {
    (if sites == 0 {
        seq!["no call sites found in this file"@]
    } else {
        Seq::empty()
    }) + (if cross > 0 {
        seq![decimal(cross) + " cross-file reference(s) not updated"@]
    } else {
        Seq::empty()
    })
}

/// What inlining a delegate does to its file, before the definition goes.
pub struct DelegatePlan {
    /// What calls go to instead.
    pub delegate_target: String,
    /// The replacements of the call sites' names, last first.
    pub edits: Vec<(usize, usize, String)>,
    pub call_sites_replaced: u32,
    pub function_deleted: bool,
    pub warnings: Vec<String>,
}

/// What planning inline-delegate gives: the target, the call-site edits in
/// descending order, the counts and warnings; or the check's message.
pub open spec fn delegate_outcome(
    src: Seq<char>,
    root: SyntaxNode,
    name: Seq<char>,
    references: Seq<ReferenceHit>,
    dry_run: bool,
    r: Result<DelegatePlan, String>,
) -> bool {
    match r {
        Ok(p) => delegate_check(root, src, name) matches Ok((d, t)) && {
            let sites = delegate_sites(root, src, name, d.start_row, d.end_row);
            &&& p.delegate_target@ == t
            &&& edit_views(p.edits@) == edits_desc(site_edits(sites, t))
            &&& p.call_sites_replaced == sites.len() as u32
            &&& p.function_deleted == (!dry_run && sites.len() > 0)
            &&& string_texts(p.warnings@) == delegate_warnings(sites.len(), cross_file_count(references))
        },
        Err(m) => delegate_check(root, src, name) == Err::<(SyntaxNode, Seq<char>), _>(m@),
    }
}

/// Plan inlining the delegate `name`: check that it only forwards its
/// parameters, in order, to one call; find its call sites outside its own
/// definition; and give the edits that call the target in their place.
/// `references` are all references to `name` in the project.
#[verifier::rlimit(60)]
pub fn plan_inline_delegate(source: &str, root: &SyntaxNode, name: &str, references: &[ReferenceHit], dry_run: bool) -> (r: Result<DelegatePlan, String>)
    requires
        tree_ok(source@, *root),
        well_nested(*root),
    ensures
        delegate_outcome(source@, *root, name@, references@, dry_run, r),
{
    let (d, t) = check_delegate(root, source, name)?;
    let mut sites: Vec<(usize, usize, usize)> = Vec::new();
    collect_call_sites(root, name, source, d.start_row, d.end_row, &mut sites);
    assert(sites@ =~= delegate_sites(*root, source@, name@, d.start_row, d.end_row));
    let edits = call_site_edits(&sites, t.as_str());
    let mut warnings: Vec<String> = Vec::new();
    if sites.len() == 0 {
        warnings.push(concat_strs(&["no call sites found in this file"]));
        proof {
            reveal_with_fuel(concat_views, 2);
        }
    }
    let ghost w0 = string_texts(warnings@);
    let cross = cross_file_references(references);
    if cross > 0 {
        let n = crate::text::decimal_string(cross);
        warnings.push(concat_strs(&[n.as_str(), " cross-file reference(s) not updated"]));
        proof {
            reveal_with_fuel(concat_views, 3);
        }
        assert(string_texts(warnings@) =~= w0 + seq![decimal(cross as nat) + " cross-file reference(s) not updated"@]);
    }
    assert(string_texts(warnings@) =~= delegate_warnings(sites@.len(), cross_file_count(references@)));
    let replaced = sites.len() as u32;
    Ok(DelegatePlan {
        delegate_target: t,
        edits,
        call_sites_replaced: replaced,
        function_deleted: !dry_run && sites.len() > 0,
        warnings,
    })
}

fn cross_file_references(hits: &[ReferenceHit]) -> (n: usize)
    ensures
        n == cross_file_count(hits@),
{
    let mut n: usize = 0;
    let mut i: usize = 0;
    while i < hits.len()
        invariant
            i <= hits@.len(),
            n == cross_file_count(hits@.take(i as int)),
            n <= i,
        decreases hits@.len() - i,
    {
        assert(hits@.take(i + 1).drop_last() =~= hits@.take(i as int));
        if !hits[i].same_file {
            n += 1;
        }
        i += 1;
    }
    assert(hits@.take(i as int) =~= hits@);
    n
}

/// Plan inline-delegate in a source text, parsing it first: `None` when the
/// parser gives no tree that fits the text.
pub fn plan_inline_delegate_in(source: &str, name: &str, references: &[ReferenceHit], dry_run: bool) -> (r: Option<Result<DelegatePlan, String>>)
    ensures
        r is None <==> fitting_tree(source@) is None,
        r matches Some(x) ==> delegate_outcome(source@, fitting_tree(source@)->0, name@, references@, dry_run, x),
{
    match parse_fitting(source) {
        Some(root) => Some(plan_inline_delegate(source, &root, name, references, dry_run)),
        None => None,
    }
}

/// The file after the calls were replaced: the edits applied in turn.
pub fn replace_call_sites(source: &str, edits: &[(usize, usize, String)]) -> (r: String)
    requires
        edits_valid(source@, edit_views(edits@)),
    ensures
        r@ == applied(source@, edit_views(edits@)),
{
    apply_edits(source, edits)
}

} // verus!
