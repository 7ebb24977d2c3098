//! Extract-method: turn a run of statements into a new function and a call.
use vstd::prelude::*;

use crate::refactor::{collapse, nl_starts, reindent_ok, reindented, re_indent_with, str_eq};
use crate::refactor::inline_method::{field_text, opt_chars};
use crate::refactor::move_symbol::{char_texts, strictly_sorted};
use crate::syntax::{
    SyntaxNode, child, field_child, kind_is, node_text, span_ok, text_between, text_of, tree_ok, well_nested,
};
use vstd::utf8::encode_utf8;
use crate::text::{
    chars_of, concat_strs, concat_views, decimal, extend, extend_str, indent_of, join, join_lines, lead_ws_len,
    lemma_lead_ws_bound, opt_view, seq_eq,
    line_at, nth_line, slice_of, string_of,
};

use crate::parse::{chain_at, fitting_tree, nodes_at, parse_fitting};

verus! {

/// A variable of the enclosing function that the extracted statements use.
pub struct CapturedVar {
    pub name: String,
    pub type_hint: Option<String>,
    pub is_written: bool,
    pub is_used_after: bool,
    /// True for variables declared inside the extracted range.
    pub needs_var_declaration: bool,
}

/// Re-indent text: find minimum indentation, strip it, add 1 tab.
pub fn re_indent(text: &str) -> (r: String)
    requires
        reindent_ok(text@),
    ensures
        r@ == reindented(text@, seq!['\t']),
{
    let tab: Vec<char> = vec!['\t'];
    assert(tab@ =~= seq!['\t']);
    re_indent_with(text, &tab)
}

/// Get the indentation string (tabs/spaces) of a line (0-based).
pub fn get_indent(source: &str, line: usize) -> (r: String)
    ensures
        r@ == indent_of(nth_line(source@, line as int)),
{
    let v = chars_of(source);
    let l = line_at(&v, line);
    let k = lead_ws_len(&l);
    proof {
        lemma_lead_ws_bound(l@);
    }
    let ind = slice_of(&l, 0, k);
    assert(ind@ =~= indent_of(l@));
    string_of(&ind)
}

/// The variable an optional reference points at.
pub open spec fn opt_var(r: Option<&CapturedVar>) -> Option<CapturedVar> {
    match r {
        Some(v) => Some(*v),
        None => None,
    }
}

/// The names of the parameters, comma-separated.
pub open spec fn arg_list(params: Seq<CapturedVar>) -> Seq<char> {
    join(params.map_values(|p: CapturedVar| p.name@), ", "@)
}

/// The call that replaces the extracted statements.
pub open spec fn call_site(
    name: Seq<char>,
    params: Seq<CapturedVar>,
    ret: Option<CapturedVar>,
    indent: Seq<char>,
) -> Seq<char> {
    let call = name + "("@ + arg_list(params) + ")\n"@;
    match ret {
        Some(r) => if r.needs_var_declaration {
            indent + "var "@ + r.name@ + " = "@ + call
        } else {
            indent + r.name@ + " = "@ + call
        },
        None => indent + call,
    }
}

fn args_of(params: &[CapturedVar]) -> (r: Vec<char>)
    ensures
        r@ == arg_list(params@),
{
    let mut parts: Vec<Vec<char>> = Vec::new();
    let mut i: usize = 0;
    while i < params.len()
        invariant
            i <= params@.len(),
            parts@.len() == i,
            forall|j: int| 0 <= j < i ==> (#[trigger] parts@[j])@ == params@[j].name@,
        decreases params@.len() - i,
    {
        parts.push(chars_of(params[i].name.as_str()));
        i += 1;
    }
    let sep = chars_of(", ");
    assert(parts@.map_values(|v: Vec<char>| v@) =~= params@.map_values(|p: CapturedVar| p.name@));
    join_lines(&parts, &sep)
}

/// Generate the call site text (with indentation, trailing newline).
pub fn generate_call_site(
    name: &str,
    params: &[CapturedVar],
    return_var: Option<&CapturedVar>,
    indent: &str,
) -> (r: String)
    ensures
        r@ == call_site(name@, params@, opt_var(return_var), indent@),
{
    let args = args_of(params);
    let mut call: Vec<char> = Vec::new();
    extend_str(&mut call, name);
    extend_str(&mut call, "(");
    extend(&mut call, &args);
    extend_str(&mut call, ")\n");
    let mut out: Vec<char> = Vec::new();
    extend_str(&mut out, indent);
    match return_var {
        Some(ret) => {
            if ret.needs_var_declaration {
                extend_str(&mut out, "var ");
            }
            extend_str(&mut out, ret.name.as_str());
            extend_str(&mut out, " = ");
        },
        None => {},
    }
    extend(&mut out, &call);
    proof {
        let c = name@ + "("@ + arg_list(params@) + ")\n"@;
        assert(call@ =~= c);
        match return_var {
            Some(r) => {
                if r.needs_var_declaration {
                    assert(out@ =~= indent@ + "var "@ + r.name@ + " = "@ + c);
                } else {
                    assert(out@ =~= indent@ + r.name@ + " = "@ + c);
                }
            },
            None => {
                assert(out@ =~= indent@ + c);
            },
        }
    }
    string_of(&out)
}

/// One destructuring line of a multi-value call site.
pub open spec fn unpack_line(v: CapturedVar, indent: Seq<char>, result_name: Seq<char>) -> Seq<char> {
    let rhs = result_name + "[\""@ + v.name@ + "\"]\n"@;
    if v.needs_var_declaration {
        indent + "var "@ + v.name@ + " = "@ + rhs
    } else {
        indent + v.name@ + " = "@ + rhs
    }
}

/// The call site for a multi-value extraction: call into a result dictionary, then unpack it.
pub open spec fn multi_call_site(
    name: Seq<char>,
    params: Seq<CapturedVar>,
    return_vars: Seq<CapturedVar>,
    indent: Seq<char>,
    result_name: Seq<char>,
) -> Seq<char> {
    indent + "var "@ + result_name + " = "@ + name + "("@ + arg_list(params) + ")\n"@ + join(
        return_vars.map_values(|v: CapturedVar| unpack_line(v, indent, result_name)),
        Seq::empty(),
    )
}

/// Generate a call site for a multi-return extraction (Dictionary destructuring).
pub fn generate_call_site_multi_return(
    name: &str,
    params: &[CapturedVar],
    return_vars: &[CapturedVar],
    indent: &str,
    result_name: &str,
) -> (r: String)
    ensures
        r@ == multi_call_site(name@, params@, return_vars@, indent@, result_name@),
{
    let args = args_of(params);
    let mut lines: Vec<char> = Vec::new();
    extend_str(&mut lines, indent);
    extend_str(&mut lines, "var ");
    extend_str(&mut lines, result_name);
    extend_str(&mut lines, " = ");
    extend_str(&mut lines, name);
    extend_str(&mut lines, "(");
    extend(&mut lines, &args);
    extend_str(&mut lines, ")\n");
    let ghost head = lines@;
    let ghost parts = return_vars@.map_values(|v: CapturedVar| unpack_line(v, indent@, result_name@));
    let mut i: usize = 0;
    while i < return_vars.len()
        invariant
            i <= return_vars@.len(),
            parts == return_vars@.map_values(|v: CapturedVar| unpack_line(v, indent@, result_name@)),
            lines@ == head + join(parts.take(i as int), Seq::empty()),
        decreases return_vars@.len() - i,
    {
        let v = &return_vars[i];
        let mut one: Vec<char> = Vec::new();
        extend_str(&mut one, indent);
        if v.needs_var_declaration {
            extend_str(&mut one, "var ");
        }
        extend_str(&mut one, v.name.as_str());
        extend_str(&mut one, " = ");
        extend_str(&mut one, result_name);
        extend_str(&mut one, "[\"");
        extend_str(&mut one, v.name.as_str());
        extend_str(&mut one, "\"]\n");
        proof {
            let rhs = result_name@ + "[\""@ + v.name@ + "\"]\n"@;
            if v.needs_var_declaration {
                assert(one@ =~= indent@ + "var "@ + v.name@ + " = "@ + rhs);
            } else {
                assert(one@ =~= indent@ + v.name@ + " = "@ + rhs);
            }
            assert(one@ == parts[i as int]);
            crate::text::lemma_join_push(parts.take(i as int), Seq::empty(), parts[i as int]);
            assert(parts.take(i as int).push(parts[i as int]) =~= parts.take(i + 1));
        }
        extend(&mut lines, &one);
        i += 1;
        proof {
            if i == 1 {
                assert(lines@ =~= head + join(parts.take(i as int), Seq::empty()));
            } else {
                assert(lines@ =~= head + join(parts.take(i as int), Seq::empty()));
            }
        }
    }
    assert(parts.take(i as int) =~= parts);
    assert(lines@ =~= multi_call_site(name@, params@, return_vars@, indent@, result_name@));
    string_of(&lines)
}

// ── Errors ─────────────────────────────────────────────────────────────────

/// Why the selected lines cannot be extracted.
#[derive(Debug)]
pub enum ExtractError {
    NoBody,
    OutsideBody,
    /// 0-based: the selected lines, then the lines of the statement that overlaps them.
    Misaligned(usize, usize, usize, usize),
    NoStatements,
    /// 0-based: the requested start line and the nearest statement start.
    StartMisaligned(usize, usize),
    /// 0-based: the requested end line and the nearest statement end.
    EndMisaligned(usize, usize),
    ContainsReturn,
    /// `break` or `continue`.
    EscapingControl(&'static str),
}

/// The message of an extract error (line numbers shown 1-based).
pub open spec fn extract_error_message(e: ExtractError) -> Seq<char> {
    match e {
        ExtractError::NoBody => "function has no body"@,
        ExtractError::OutsideBody => "selected range is outside the function body"@,
        ExtractError::Misaligned(a, b, c, d) => "line range "@ + decimal((a + 1) as nat) + "-"@ + decimal(
            (b + 1) as nat,
        ) + " does not align with statement boundaries (statement on lines "@ + decimal((c + 1) as nat) + "-"@
            + decimal((d + 1) as nat) + " partially overlaps)"@,
        ExtractError::NoStatements => "no statements found in the selected range"@,
        ExtractError::StartMisaligned(a, n) => "start line "@ + decimal((a + 1) as nat)
            + " does not align with a statement boundary (nearest: "@ + decimal((n + 1) as nat) + ")"@,
        ExtractError::EndMisaligned(a, n) => "end line "@ + decimal((a + 1) as nat)
            + " does not align with a statement boundary (nearest: "@ + decimal((n + 1) as nat) + ")"@,
        ExtractError::ContainsReturn => "cannot extract code containing return statements"@,
        ExtractError::EscapingControl(k) => "cannot extract code containing '"@ + k@
            + "' \u{2014} it would be invalid outside its loop"@,
    }
}

fn succ_string(n: usize) -> (r: String)
    ensures
        r@ == decimal((n + 1) as nat),
{
    crate::text::decimal_string_wide(n as u128 + 1)
}

impl ExtractError {
    /// The message shown to the user.
    pub fn message(&self) -> (r: String)
        ensures
            r@ == extract_error_message(*self),
    {
        let r = match self {
            ExtractError::NoBody => concat_strs(&["function has no body"]),
            ExtractError::OutsideBody => concat_strs(&["selected range is outside the function body"]),
            ExtractError::Misaligned(a, b, c, d) => {
                let (x, y, z, w) = (succ_string(*a), succ_string(*b), succ_string(*c), succ_string(*d));
                concat_strs(
                    &[
                        "line range ",
                        x.as_str(),
                        "-",
                        y.as_str(),
                        " does not align with statement boundaries (statement on lines ",
                        z.as_str(),
                        "-",
                        w.as_str(),
                        " partially overlaps)",
                    ],
                )
            },
            ExtractError::NoStatements => concat_strs(&["no statements found in the selected range"]),
            ExtractError::StartMisaligned(a, n) => {
                let (x, y) = (succ_string(*a), succ_string(*n));
                concat_strs(&["start line ", x.as_str(), " does not align with a statement boundary (nearest: ", y.as_str(), ")"])
            },
            ExtractError::EndMisaligned(a, n) => {
                let (x, y) = (succ_string(*a), succ_string(*n));
                concat_strs(&["end line ", x.as_str(), " does not align with a statement boundary (nearest: ", y.as_str(), ")"])
            },
            ExtractError::ContainsReturn => concat_strs(&["cannot extract code containing return statements"]),
            ExtractError::EscapingControl(k) => concat_strs(
                &["cannot extract code containing '", *k, "' \u{2014} it would be invalid outside its loop"],
            ),
        };
        proof {
            reveal_with_fuel(concat_views, 10);
        }
        r
    }
}

// ── The selected statements ────────────────────────────────────────────────

/// Scanning the first `k` children of a body for the statements within the
/// 0-based lines `a..=b`: the positions of those inside, or the first
/// statement that straddles the range.
pub open spec fn in_range(cs: Seq<SyntaxNode>, a: usize, b: usize, k: int) -> Result<Seq<int>, SyntaxNode>
    decreases k,
{
    if k <= 0 || k > cs.len() {
        Ok(Seq::empty())
    } else {
        match in_range(cs, a, b, k - 1) {
            Err(c) => Err(c),
            Ok(v) => {
                let c = cs[k - 1];
                if c.kind@ == "comment"@ || c.end_row < a || c.start_row > b {
                    Ok(v)
                } else if c.start_row < a || c.end_row > b {
                    Err(c)
                } else {
                    Ok(v.push(k - 1))
                }
            },
        }
    }
}

/// Collect the direct children of `body` that lie within the 0-based lines
/// `start_line..=end_line`, as positions; a statement that only partly lies
/// within them is an error.
pub fn collect_statements_in_range(body: &SyntaxNode, start_line: usize, end_line: usize) -> (r: Result<Vec<usize>, ExtractError>)
    ensures
        match r {
            Ok(v) => in_range(body.children@, start_line, end_line, body.children@.len() as int) == Ok::<_, SyntaxNode>(
                v@.map_values(|i: usize| i as int),
            ) && forall|j: int| 0 <= j < v@.len() ==> #[trigger] v@[j] < body.children@.len(),
            Err(e) => in_range(body.children@, start_line, end_line, body.children@.len() as int) matches Err(c)
                && e == ExtractError::Misaligned(start_line, end_line, c.start_row, c.end_row),
        },
{
    let mut v: Vec<usize> = Vec::new();
    let mut i: usize = 0;
    assert(v@.map_values(|x: usize| x as int) =~= Seq::<int>::empty());
    while i < body.children.len()
        invariant
            i <= body.children@.len(),
            in_range(body.children@, start_line, end_line, i as int) == Ok::<_, SyntaxNode>(v@.map_values(|x: usize| x as int)),
            forall|j: int| 0 <= j < v@.len() ==> #[trigger] v@[j] < i,
        decreases body.children@.len() - i,
    {
        let c = &body.children[i];
        if kind_is(c, "comment") || c.end_row < start_line || c.start_row > end_line {
        } else if c.start_row < start_line || c.end_row > end_line {
            proof {
                lemma_in_range_err(body.children@, start_line, end_line, i + 1);
            }
            return Err(ExtractError::Misaligned(start_line, end_line, c.start_row, c.end_row));
        } else {
            let ghost prev = v@.map_values(|x: usize| x as int);
            v.push(i);
            assert(v@.map_values(|x: usize| x as int) =~= prev.push(i as int));
        }
        i += 1;
    }
    Ok(v)
}

proof fn lemma_in_range_err(cs: Seq<SyntaxNode>, a: usize, b: usize, k: int)
    requires
        0 <= k <= cs.len(),
        in_range(cs, a, b, k) is Err,
    ensures
        in_range(cs, a, b, cs.len() as int) == in_range(cs, a, b, k),
    decreases cs.len() - k,
{
    if k < cs.len() {
        lemma_in_range_err(cs, a, b, k + 1);
    }
}

/// A node of the given kind in a subtree.
pub open spec fn has_kind(n: SyntaxNode, k: Seq<char>) -> bool
    decreases n, n.children@.len() + 1,
{
    n.kind@ == k || has_kind_in_children(n, k, n.children@.len() as int)
}

/// Such a node under the first `j` children.
pub open spec fn has_kind_in_children(n: SyntaxNode, k: Seq<char>, j: int) -> bool
    decreases n, j,
{
    if j <= 0 || j > n.children@.len() {
        false
    } else {
        has_kind_in_children(n, k, j - 1) || has_kind(n.children@[j - 1], k)
    }
}

proof fn lemma_kind_grow(n: SyntaxNode, k: Seq<char>, j: int, m: int)
    requires
        0 <= j <= m <= n.children@.len(),
        has_kind_in_children(n, k, j),
    ensures
        has_kind_in_children(n, k, m),
    decreases m - j,
{
    if j < m {
        lemma_kind_grow(n, k, j, m - 1);
    }
}

/// Check if any node of a subtree has the given kind.
pub fn contains_node_kind(node: &SyntaxNode, kind: &str) -> (r: bool)
    ensures
        r == has_kind(*node, kind@),
    decreases node,
{
    if kind_is(node, kind) {
        return true;
    }
    let mut i: usize = 0;
    while i < node.children.len()
        invariant
            i <= node.children@.len(),
            node.kind@ != kind@,
            !has_kind_in_children(*node, kind@, i as int),
        decreases node.children@.len() - i,
    {
        if contains_node_kind(&node.children[i], kind) {
            proof {
                lemma_kind_grow(*node, kind@, i + 1, node.children@.len() as int);
            }
            return true;
        }
        i += 1;
    }
    false
}

/// The first `break` or `continue` in a subtree whose nearest enclosing loop
/// is not inside the selection `sel` (byte range); `inside` says whether the
/// nearest loop above the subtree is inside it (none: there is no loop).
pub open spec fn escaping(n: SyntaxNode, sel: (usize, usize), inside: Option<bool>) -> Option<Seq<char>>
    decreases n, n.children@.len() + 1,
{
    if n.kind@ == "break_statement"@ || n.kind@ == "continue_statement"@ {
        if inside == Some(true) {
            None
        } else if n.kind@ == "break_statement"@ {
            Some("break"@)
        } else {
            Some("continue"@)
        }
    } else {
        let inner = if n.kind@ == "for_statement"@ || n.kind@ == "while_statement"@ {
            Some(sel.0 <= n.start_byte && n.end_byte <= sel.1)
        } else {
            inside
        };
        escaping_in_children(n, sel, inner, n.children@.len() as int)
    }
}

/// The first escaping jump under the first `k` children.
pub open spec fn escaping_in_children(n: SyntaxNode, sel: (usize, usize), inside: Option<bool>, k: int) -> Option<Seq<char>>
    decreases n, k,
{
    if k <= 0 || k > n.children@.len() {
        None
    } else {
        match escaping_in_children(n, sel, inside, k - 1) {
            Some(x) => Some(x),
            None => escaping(n.children@[k - 1], sel, inside),
        }
    }
}

proof fn lemma_escaping_found(n: SyntaxNode, sel: (usize, usize), inside: Option<bool>, k: int, m: int)
    requires
        0 <= k <= m <= n.children@.len(),
        escaping_in_children(n, sel, inside, k) is Some,
    ensures
        escaping_in_children(n, sel, inside, m) == escaping_in_children(n, sel, inside, k),
    decreases m - k,
{
    if k < m {
        lemma_escaping_found(n, sel, inside, k, m - 1);
    }
}

/// Find a `break` or `continue` whose enclosing loop is outside the selection.
pub fn find_escaping_loop_control(node: &SyntaxNode, selection: (usize, usize), inside: Option<bool>) -> (r: Option<&'static str>)
    ensures
        match r {
            Some(k) => escaping(*node, selection, inside) == Some(k@),
            None => escaping(*node, selection, inside) is None,
        },
    decreases node,
{
    if kind_is(node, "break_statement") || kind_is(node, "continue_statement") {
        if inside == Some(true) {
            return None;
        }
        let kw = if kind_is(node, "break_statement") { "break" } else { "continue" };
        return Some(kw);
    }
    let inner = if kind_is(node, "for_statement") || kind_is(node, "while_statement") {
        Some(selection.0 <= node.start_byte && node.end_byte <= selection.1)
    } else {
        inside
    };
    let mut i: usize = 0;
    while i < node.children.len()
        invariant
            i <= node.children@.len(),
            node.kind@ != "break_statement"@,
            node.kind@ != "continue_statement"@,
            inner == (if node.kind@ == "for_statement"@ || node.kind@ == "while_statement"@ {
                Some(selection.0 <= node.start_byte && node.end_byte <= selection.1)
            } else {
                inside
            }),
            escaping_in_children(*node, selection, inner, i as int) is None,
        decreases node.children@.len() - i,
    {
        match find_escaping_loop_control(&node.children[i], selection, inner) {
            Some(k) => {
                proof {
                    assert(escaping_in_children(*node, selection, inner, i + 1) == Some(k@));
                    lemma_escaping_found(*node, selection, inner, i + 1, node.children@.len() as int);
                }
                return Some(k);
            },
            None => {},
        }
        i += 1;
    }
    None
}

// ── Names used and declared ────────────────────────────────────────────────

/// The names (identifiers and `name` nodes with text) in a subtree, in pre-order.
pub open spec fn idents_of(n: SyntaxNode, src: Seq<char>) -> Seq<Seq<char>>
    decreases n, n.children@.len() + 1,
{
    (if (n.kind@ == "identifier"@ || n.kind@ == "name"@) && text_of(src, n).len() > 0 {
        seq![text_of(src, n)]
    } else {
        Seq::empty()
    }) + idents_in_children(n, src, n.children@.len() as int)
}

/// The names under the first `k` children.
pub open spec fn idents_in_children(n: SyntaxNode, src: Seq<char>, k: int) -> Seq<Seq<char>>
    decreases n, k,
{
    if k <= 0 || k > n.children@.len() {
        Seq::empty()
    } else {
        idents_in_children(n, src, k - 1) + idents_of(n.children@[k - 1], src)
    }
}

/// The names a node itself declares: a `var` name, or a `for` loop variable.
pub open spec fn own_decls(n: SyntaxNode, src: Seq<char>) -> Seq<Seq<char>> {
    (if n.kind@ == "variable_statement"@ {
        match field_text(n, "name"@, src) {
            Some(t) => seq![t],
            None => Seq::empty(),
        }
    } else {
        Seq::empty()
    }) + (if n.kind@ == "for_statement"@ {
        match field_text(n, "left"@, src) {
            Some(t) => seq![t],
            None => Seq::empty(),
        }
    } else {
        Seq::empty()
    })
}

/// The names declared in a subtree: `var` names and `for` loop variables.
pub open spec fn decls_of(n: SyntaxNode, src: Seq<char>) -> Seq<Seq<char>>
    decreases n, n.children@.len() + 1,
{
    own_decls(n, src) + decls_in_children(n, src, n.children@.len() as int)
}

/// The names declared under the first `k` children.
pub open spec fn decls_in_children(n: SyntaxNode, src: Seq<char>, k: int) -> Seq<Seq<char>>
    decreases n, k,
{
    if k <= 0 || k > n.children@.len() {
        Seq::empty()
    } else {
        decls_in_children(n, src, k - 1) + decls_of(n.children@[k - 1], src)
    }
}

fn push_idents(node: &SyntaxNode, source: &str, out: &mut Vec<Vec<char>>)
    requires
        tree_ok(source@, *node),
    ensures
        char_texts(final(out)@) == char_texts(old(out)@) + idents_of(*node, source@),
    decreases node,
{
    let ghost start = char_texts(out@);
    if kind_is(node, "identifier") || kind_is(node, "name") {
        let t = chars_of(node_text(node, source).as_str());
        if t.len() > 0 {
            out.push(t);
        }
    }
    let ghost mid = char_texts(out@);
    assert(mid =~= start + (if (node.kind@ == "identifier"@ || node.kind@ == "name"@) && text_of(source@, *node).len() > 0 {
        seq![text_of(source@, *node)]
    } else {
        Seq::<Seq<char>>::empty()
    }));
    let mut i: usize = 0;
    assert(char_texts(out@) =~= mid + idents_in_children(*node, source@, 0));
    while i < node.children.len()
        invariant
            i <= node.children@.len(),
            tree_ok(source@, *node),
            char_texts(out@) == mid + idents_in_children(*node, source@, i as int),
        decreases node.children@.len() - i,
    {
        assert(tree_ok(source@, node.children@[i as int]));
        push_idents(&node.children[i], source, out);
        assert(char_texts(out@) =~= mid + idents_in_children(*node, source@, i + 1));
        i += 1;
    }
    assert(char_texts(out@) =~= start + idents_of(*node, source@));
}

fn push_field_text(node: &SyntaxNode, f: &str, source: &str, out: &mut Vec<Vec<char>>)
    requires
        tree_ok(source@, *node),
    ensures
        char_texts(final(out)@) == char_texts(old(out)@) + match field_text(*node, f@, source@) {
            Some(t) => seq![t],
            None => Seq::<Seq<char>>::empty(),
        },
{
    let ghost start = char_texts(out@);
    match crate::syntax::child_by_field_name(node, f) {
        Some(c) => {
            assert(tree_ok(source@, *c));
            out.push(chars_of(node_text(c, source).as_str()));
            assert(char_texts(out@) =~= start + seq![text_of(source@, *c)]);
        },
        None => {
            assert(char_texts(out@) =~= start);
        },
    }
}

#[verifier::rlimit(40)]
fn push_own_decls(node: &SyntaxNode, source: &str, out: &mut Vec<Vec<char>>)
    requires
        tree_ok(source@, *node),
    ensures
        char_texts(final(out)@) == char_texts(old(out)@) + own_decls(*node, source@),
{
    let ghost start = char_texts(out@);
    let ghost e: Seq<Seq<char>> = Seq::empty();
    if kind_is(node, "variable_statement") {
        push_field_text(node, "name", source, out);
    }
    if kind_is(node, "for_statement") {
        push_field_text(node, "left", source, out);
    }
    assert(char_texts(out@) =~= start + own_decls(*node, source@));
}

#[verifier::rlimit(80)]
fn push_decls(node: &SyntaxNode, source: &str, out: &mut Vec<Vec<char>>)
    requires
        tree_ok(source@, *node),
    ensures
        char_texts(final(out)@) == char_texts(old(out)@) + decls_of(*node, source@),
    decreases node,
{
    let ghost start = char_texts(out@);
    push_own_decls(node, source, out);
    let ghost mid = char_texts(out@);
    let mut i: usize = 0;
    assert(char_texts(out@) =~= mid + decls_in_children(*node, source@, 0));
    while i < node.children.len()
        invariant
            i <= node.children@.len(),
            tree_ok(source@, *node),
            char_texts(out@) == mid + decls_in_children(*node, source@, i as int),
        decreases node.children@.len() - i,
    {
        assert(tree_ok(source@, node.children@[i as int]));
        push_decls(&node.children[i], source, out);
        assert(char_texts(out@) =~= mid + decls_in_children(*node, source@, i + 1));
        i += 1;
    }
    assert(char_texts(out@) =~= start + decls_of(*node, source@));
}

/// The given statements of `body`, in order.
pub open spec fn stmts_at(body: SyntaxNode, idx: Seq<usize>) -> Seq<SyntaxNode> {
    idx.map_values(|i: usize| body.children@[i as int])
}

/// The names used in the statements.
pub open spec fn stmt_idents(ss: Seq<SyntaxNode>, src: Seq<char>) -> Seq<Seq<char>>
    decreases ss.len(),
{
    if ss.len() == 0 {
        Seq::empty()
    } else {
        stmt_idents(ss.drop_last(), src) + idents_of(ss.last(), src)
    }
}

/// The names declared in the statements.
pub open spec fn stmt_decls(ss: Seq<SyntaxNode>, src: Seq<char>) -> Seq<Seq<char>>
    decreases ss.len(),
{
    if ss.len() == 0 {
        Seq::empty()
    } else {
        stmt_decls(ss.drop_last(), src) + decls_of(ss.last(), src)
    }
}

/// Collect the names used in the statements `idx` of `body`.
pub fn collect_identifiers(body: &SyntaxNode, idx: &[usize], source: &str) -> (r: Vec<Vec<char>>)
    requires
        tree_ok(source@, *body),
        forall|j: int| 0 <= j < idx@.len() ==> #[trigger] idx@[j] < body.children@.len(),
    ensures
        char_texts(r@) == stmt_idents(stmts_at(*body, idx@), source@),
{
    let mut out: Vec<Vec<char>> = Vec::new();
    let mut k: usize = 0;
    while k < idx.len()
        invariant
            k <= idx@.len(),
            tree_ok(source@, *body),
            forall|j: int| 0 <= j < idx@.len() ==> #[trigger] idx@[j] < body.children@.len(),
            char_texts(out@) == stmt_idents(stmts_at(*body, idx@).take(k as int), source@),
        decreases idx@.len() - k,
    {
        assert(stmts_at(*body, idx@).take(k + 1).drop_last() =~= stmts_at(*body, idx@).take(k as int));
        assert(tree_ok(source@, body.children@[idx@[k as int] as int]));
        push_idents(&body.children[idx[k]], source, &mut out);
        k += 1;
    }
    assert(stmts_at(*body, idx@).take(k as int) =~= stmts_at(*body, idx@));
    out
}

/// Collect the names declared in the statements `idx` of `body`.
pub fn collect_local_declarations(body: &SyntaxNode, idx: &[usize], source: &str) -> (r: Vec<Vec<char>>)
    requires
        tree_ok(source@, *body),
        forall|j: int| 0 <= j < idx@.len() ==> #[trigger] idx@[j] < body.children@.len(),
    ensures
        char_texts(r@) == stmt_decls(stmts_at(*body, idx@), source@),
{
    let mut out: Vec<Vec<char>> = Vec::new();
    let mut k: usize = 0;
    while k < idx.len()
        invariant
            k <= idx@.len(),
            tree_ok(source@, *body),
            forall|j: int| 0 <= j < idx@.len() ==> #[trigger] idx@[j] < body.children@.len(),
            char_texts(out@) == stmt_decls(stmts_at(*body, idx@).take(k as int), source@),
        decreases idx@.len() - k,
    {
        assert(stmts_at(*body, idx@).take(k + 1).drop_last() =~= stmts_at(*body, idx@).take(k as int));
        assert(tree_ok(source@, body.children@[idx@[k as int] as int]));
        push_decls(&body.children[idx[k]], source, &mut out);
        k += 1;
    }
    assert(stmts_at(*body, idx@).take(k as int) =~= stmts_at(*body, idx@));
    out
}

// ── Writes and later uses ──────────────────────────────────────────────────

/// An assignment in a subtree whose left side is the name `name`.
pub open spec fn assigns(n: SyntaxNode, src: Seq<char>, name: Seq<char>) -> bool
    decreases n, n.children@.len() + 1,
{
    ((n.kind@ == "assignment"@ || n.kind@ == "augmented_assignment"@) && (field_child(n, "left"@) matches Some(
        l,
    ) && (l.kind@ == "identifier"@ || l.kind@ == "name"@) && text_of(src, l) == name)) || assigns_in_children(
        n,
        src,
        name,
        n.children@.len() as int,
    )
}

/// Such an assignment under the first `k` children.
pub open spec fn assigns_in_children(n: SyntaxNode, src: Seq<char>, name: Seq<char>, k: int) -> bool
    decreases n, k,
{
    if k <= 0 || k > n.children@.len() {
        false
    } else {
        assigns_in_children(n, src, name, k - 1) || assigns(n.children@[k - 1], src, name)
    }
}

proof fn lemma_assigns_grow(n: SyntaxNode, src: Seq<char>, name: Seq<char>, k: int, m: int)
    requires
        0 <= k <= m <= n.children@.len(),
        assigns_in_children(n, src, name, k),
    ensures
        assigns_in_children(n, src, name, m),
    decreases m - k,
{
    if k < m {
        lemma_assigns_grow(n, src, name, k, m - 1);
    }
}

#[verifier::rlimit(40)]
fn has_assignment_to(node: &SyntaxNode, name: &str, source: &str) -> (r: bool)
    requires
        tree_ok(source@, *node),
    ensures
        r == assigns(*node, source@, name@),
    decreases node,
{
    if kind_is(node, "assignment") || kind_is(node, "augmented_assignment") {
        match crate::syntax::child_by_field_name(node, "left") {
            Some(l) => {
                assert(tree_ok(source@, *l));
                if (kind_is(l, "identifier") || kind_is(l, "name")) && str_eq(node_text(l, source).as_str(), name) {
                    return true;
                }
            },
            None => {},
        }
    }
    let mut i: usize = 0;
    while i < node.children.len()
        invariant
            i <= node.children@.len(),
            tree_ok(source@, *node),
            !((node.kind@ == "assignment"@ || node.kind@ == "augmented_assignment"@) && (field_child(*node, "left"@) matches Some(
                l,
            ) && (l.kind@ == "identifier"@ || l.kind@ == "name"@) && text_of(source@, l) == name@)),
            !assigns_in_children(*node, source@, name@, i as int),
        decreases node.children@.len() - i,
    {
        assert(tree_ok(source@, node.children@[i as int]));
        if has_assignment_to(&node.children[i], name, source) {
            proof {
                lemma_assigns_grow(*node, source@, name@, i + 1, node.children@.len() as int);
            }
            return true;
        }
        i += 1;
    }
    false
}

/// One of the statements assigns `name`.
pub open spec fn assigned_in(ss: Seq<SyntaxNode>, src: Seq<char>, name: Seq<char>) -> bool {
    exists|i: int| 0 <= i < ss.len() && assigns(ss[i], src, name)
}

/// Check if `name` is assigned within the statements `idx` of `body`.
#[verifier::spinoff_prover]
#[verifier::rlimit(40)]
pub fn is_assigned_in_statements(name: &str, body: &SyntaxNode, idx: &[usize], source: &str) -> (r: bool)
    requires
        tree_ok(source@, *body),
        forall|j: int| 0 <= j < idx@.len() ==> #[trigger] idx@[j] < body.children@.len(),
    ensures
        r == assigned_in(stmts_at(*body, idx@), source@, name@),
{
    let ghost ss = stmts_at(*body, idx@);
    let mut k: usize = 0;
    while k < idx.len()
        invariant
            k <= idx@.len(),
            ss == stmts_at(*body, idx@),
            tree_ok(source@, *body),
            forall|j: int| 0 <= j < idx@.len() ==> #[trigger] idx@[j] < body.children@.len(),
            forall|j: int| 0 <= j < k ==> !assigns(#[trigger] ss[j], source@, name@),
        decreases idx@.len() - k,
    {
        assert(tree_ok(source@, body.children@[idx@[k as int] as int]));
        assert(ss[k as int] == body.children@[idx@[k as int] as int]);
        if has_assignment_to(&body.children[idx[k]], name, source) {
            return true;
        }
        k += 1;
    }
    false
}

/// The name `name` occurs (as an identifier or `name` node) in a subtree.
pub open spec fn has_ident(n: SyntaxNode, src: Seq<char>, name: Seq<char>) -> bool
    decreases n, n.children@.len() + 1,
{
    ((n.kind@ == "identifier"@ || n.kind@ == "name"@) && text_of(src, n) == name) || has_ident_in_children(
        n,
        src,
        name,
        n.children@.len() as int,
    )
}

/// It occurs under the first `k` children.
pub open spec fn has_ident_in_children(n: SyntaxNode, src: Seq<char>, name: Seq<char>, k: int) -> bool
    decreases n, k,
{
    if k <= 0 || k > n.children@.len() {
        false
    } else {
        has_ident_in_children(n, src, name, k - 1) || has_ident(n.children@[k - 1], src, name)
    }
}

proof fn lemma_ident_grow(n: SyntaxNode, src: Seq<char>, name: Seq<char>, k: int, m: int)
    requires
        0 <= k <= m <= n.children@.len(),
        has_ident_in_children(n, src, name, k),
    ensures
        has_ident_in_children(n, src, name, m),
    decreases m - k,
{
    if k < m {
        lemma_ident_grow(n, src, name, k, m - 1);
    }
}

/// Whether the name occurs in a subtree.
#[verifier::rlimit(40)]
pub fn has_identifier(node: &SyntaxNode, name: &str, source: &str) -> (r: bool)
    requires
        tree_ok(source@, *node),
    ensures
        r == has_ident(*node, source@, name@),
    decreases node,
{
    if (kind_is(node, "identifier") || kind_is(node, "name")) && str_eq(node_text(node, source).as_str(), name) {
        return true;
    }
    let mut i: usize = 0;
    while i < node.children.len()
        invariant
            i <= node.children@.len(),
            tree_ok(source@, *node),
            !((node.kind@ == "identifier"@ || node.kind@ == "name"@) && text_of(source@, *node) == name@),
            !has_ident_in_children(*node, source@, name@, i as int),
        decreases node.children@.len() - i,
    {
        assert(tree_ok(source@, node.children@[i as int]));
        if has_identifier(&node.children[i], name, source) {
            proof {
                lemma_ident_grow(*node, source@, name@, i + 1, node.children@.len() as int);
            }
            return true;
        }
        i += 1;
    }
    false
}

/// The name is used in a statement of the body that starts at or after `end`.
pub open spec fn used_after(body: SyntaxNode, src: Seq<char>, name: Seq<char>, end: usize) -> bool {
    exists|i: int| 0 <= i < body.children@.len() && body.children@[i].start_byte >= end && has_ident(
        body.children@[i],
        src,
        name,
    )
}

/// Check if `name` is used in the body after byte `range_end`.
pub fn is_used_after_range(name: &str, body: &SyntaxNode, source: &str, range_end: usize) -> (r: bool)
    requires
        tree_ok(source@, *body),
    ensures
        r == used_after(*body, source@, name@, range_end),
{
    let mut i: usize = 0;
    while i < body.children.len()
        invariant
            i <= body.children@.len(),
            tree_ok(source@, *body),
            forall|j: int| 0 <= j < i ==> !(body.children@[j].start_byte >= range_end && has_ident(
                #[trigger] body.children@[j],
                source@,
                name@,
            )),
        decreases body.children@.len() - i,
    {
        let c = &body.children[i];
        assert(tree_ok(source@, *c));
        if c.start_byte >= range_end && has_identifier(c, name, source) {
            return true;
        }
        i += 1;
    }
    false
}

// ── Captured variables ─────────────────────────────────────────────────────

/// A name with its type hint, as declared before the extracted statements.
pub type Decl = (Seq<char>, Option<Seq<char>>);

/// The parameter a child of a parameter list declares, named by an identifier.
pub open spec fn param_decl(c: SyntaxNode, src: Seq<char>) -> Option<Decl> {
    if c.kind@ == "identifier"@ {
        Some((text_of(src, c), None))
    } else if c.kind@ == "typed_parameter"@ || c.kind@ == "typed_default_parameter"@ || c.kind@
        == "default_parameter"@ {
        match child(c, 0) {
            Some(n0) => if n0.kind@ == "identifier"@ {
                Some(
                    (
                        text_of(src, n0),
                        if c.kind@ == "default_parameter"@ {
                            None
                        } else {
                            field_text(c, "type"@, src)
                        },
                    ),
                )
            } else {
                None
            },
            None => None,
        }
    } else {
        None
    }
}

/// The parameters declared by the first `k` children of a parameter list.
pub open spec fn param_decls(cs: Seq<SyntaxNode>, src: Seq<char>, k: int) -> Seq<Decl>
    decreases k,
{
    if k <= 0 || k > cs.len() {
        Seq::empty()
    } else {
        param_decls(cs, src, k - 1) + match param_decl(cs[k - 1], src) {
            Some(d) => seq![d],
            None => Seq::empty(),
        }
    }
}

/// The `var` a statement declares.
pub open spec fn var_decl(c: SyntaxNode, src: Seq<char>) -> Seq<Decl> {
    if c.kind@ == "variable_statement"@ {
        match field_child(c, "name"@) {
            Some(nn) => seq![(text_of(src, nn), field_text(c, "type"@, src))],
            None => Seq::empty(),
        }
    } else {
        Seq::empty()
    }
}

/// Scanning the first `k` body statements for `var`s declared before byte
/// `start`: the declarations, and whether the scan has stopped.
pub open spec fn vars_before(cs: Seq<SyntaxNode>, src: Seq<char>, start: usize, k: int) -> (Seq<Decl>, bool)
    decreases k,
{
    if k <= 0 || k > cs.len() {
        (Seq::empty(), false)
    } else {
        let (v, stopped) = vars_before(cs, src, start, k - 1);
        if stopped || cs[k - 1].start_byte >= start {
            (v, true)
        } else {
            (v + var_decl(cs[k - 1], src), false)
        }
    }
}

/// What is declared before the extracted statements: the function's
/// parameters, then the body's `var`s before byte `start`.
pub open spec fn decls_before(func: SyntaxNode, body: SyntaxNode, src: Seq<char>, start: usize) -> Seq<Decl> {
    (match field_child(func, "parameters"@) {
        Some(p) => param_decls(p.children@, src, p.children@.len() as int),
        None => Seq::empty(),
    }) + vars_before(body.children@, src, start, body.children@.len() as int).0
}

/// The type hint of the last declaration of `n`.
pub open spec fn last_type(ds: Seq<Decl>, n: Seq<char>) -> Option<Seq<char>>
    decreases ds.len(),
{
    if ds.len() == 0 {
        None
    } else if ds.last().0 == n {
        ds.last().1
    } else {
        last_type(ds.drop_last(), n)
    }
}

/// A captured variable as plain values.
pub open spec fn cap_view(c: CapturedVar) -> (Seq<char>, Option<Seq<char>>, bool, bool, bool) {
    (c.name@, opt_view(c.type_hint), c.is_written, c.is_used_after, c.needs_var_declaration)
}

/// The names of captured variables.
pub open spec fn cap_names(v: Seq<CapturedVar>) -> Seq<Seq<char>> {
    v.map_values(|c: CapturedVar| c.name@)
}

fn decl_of_param(c: &SyntaxNode, source: &str) -> (r: Option<(Vec<char>, Option<Vec<char>>)>)
    requires
        tree_ok(source@, *c),
    ensures
        match r {
            Some(d) => param_decl(*c, source@) == Some((d.0@, opt_chars(d.1))),
            None => param_decl(*c, source@) is None,
        },
{
    if kind_is(c, "identifier") {
        return Some((chars_of(node_text(c, source).as_str()), None));
    }
    let typed = kind_is(c, "typed_parameter") || kind_is(c, "typed_default_parameter");
    let dflt = kind_is(c, "default_parameter");
    if !(typed || dflt) || c.children.len() == 0 {
        return None;
    }
    let n0 = &c.children[0];
    assert(tree_ok(source@, *n0));
    if !kind_is(n0, "identifier") {
        return None;
    }
    let name = chars_of(node_text(n0, source).as_str());
    if dflt {
        return Some((name, None));
    }
    let t = match crate::syntax::child_by_field_name(c, "type") {
        Some(tn) => {
            assert(tree_ok(source@, *tn));
            Some(chars_of(node_text(tn, source).as_str()))
        },
        None => None,
    };
    Some((name, t))
}

/// The view of a declaration list.
pub open spec fn decl_views(v: Seq<(Vec<char>, Option<Vec<char>>)>) -> Seq<Decl> {
    v.map_values(|d: (Vec<char>, Option<Vec<char>>)| (d.0@, opt_chars(d.1)))
}

/// Collect what is declared before the byte `start` of the body.
#[verifier::rlimit(60)]
pub fn declarations_before(func: &SyntaxNode, body: &SyntaxNode, source: &str, start: usize) -> (r: Vec<(Vec<char>, Option<Vec<char>>)>)
    requires
        tree_ok(source@, *func),
        tree_ok(source@, *body),
    ensures
        decl_views(r@) == decls_before(*func, *body, source@, start),
{
    let mut out: Vec<(Vec<char>, Option<Vec<char>>)> = Vec::new();
    let ghost pd: Seq<Decl> = match field_child(*func, "parameters"@) {
        Some(p) => param_decls(p.children@, source@, p.children@.len() as int),
        None => Seq::empty(),
    };
    match crate::syntax::child_by_field_name(func, "parameters") {
        Some(p) => {
            assert(tree_ok(source@, *p));
            let mut i: usize = 0;
            while i < p.children.len()
                invariant
                    i <= p.children@.len(),
                    tree_ok(source@, *p),
                    decl_views(out@) == param_decls(p.children@, source@, i as int),
                decreases p.children@.len() - i,
            {
                assert(tree_ok(source@, p.children@[i as int]));
                let ghost prev = decl_views(out@);
                match decl_of_param(&p.children[i], source) {
                    Some(d) => {
                        let ghost dv = (d.0@, opt_chars(d.1));
                        out.push(d);
                        assert(decl_views(out@) =~= prev.push(dv));
                    },
                    None => {},
                }
                assert(decl_views(out@) =~= param_decls(p.children@, source@, i + 1));
                i += 1;
            }
        },
        None => {},
    }
    assert(decl_views(out@) == pd);
    let mut i: usize = 0;
    assert(decl_views(out@) =~= pd + vars_before(body.children@, source@, start, 0).0);
    while i < body.children.len() && body.children[i].start_byte < start
        invariant
            i <= body.children@.len(),
            tree_ok(source@, *body),
            vars_before(body.children@, source@, start, i as int).1 == false,
            decl_views(out@) == pd + vars_before(body.children@, source@, start, i as int).0,
        decreases body.children@.len() - i,
    {
        let c = &body.children[i];
        assert(tree_ok(source@, *c));
        let ghost prev = decl_views(out@);
        if kind_is(c, "variable_statement") {
            match crate::syntax::child_by_field_name(c, "name") {
                Some(nn) => {
                    assert(tree_ok(source@, *nn));
                    let name = chars_of(node_text(nn, source).as_str());
                    let t = match crate::syntax::child_by_field_name(c, "type") {
                        Some(tn) => {
                            assert(tree_ok(source@, *tn));
                            Some(chars_of(node_text(tn, source).as_str()))
                        },
                        None => None,
                    };
                    let ghost dv = (name@, opt_chars(t));
                    out.push((name, t));
                    assert(decl_views(out@) =~= prev + seq![dv]);
                },
                None => {},
            }
        }
        assert(decl_views(out@) =~= pd + vars_before(body.children@, source@, start, i + 1).0);
        i += 1;
    }
    proof {
        lemma_vars_stop(body.children@, source@, start, i as int);
    }
    out
}

proof fn lemma_vars_stop(cs: Seq<SyntaxNode>, src: Seq<char>, start: usize, k: int)
    requires
        0 <= k <= cs.len(),
        k < cs.len() ==> cs[k].start_byte >= start,
    ensures
        vars_before(cs, src, start, cs.len() as int).0 == vars_before(cs, src, start, k).0,
    decreases cs.len() - k,
{
    if k < cs.len() {
        lemma_vars_stopped(cs, src, start, k + 1);
        lemma_vars_stay(cs, src, start, k + 1, cs.len() as int);
    }
}

proof fn lemma_vars_stopped(cs: Seq<SyntaxNode>, src: Seq<char>, start: usize, k: int)
    requires
        1 <= k <= cs.len(),
        cs[k - 1].start_byte >= start,
    ensures
        vars_before(cs, src, start, k).1,
        vars_before(cs, src, start, k).0 == vars_before(cs, src, start, k - 1).0,
{
}

proof fn lemma_vars_stay(cs: Seq<SyntaxNode>, src: Seq<char>, start: usize, k: int, m: int)
    requires
        0 <= k <= m <= cs.len(),
        vars_before(cs, src, start, k).1,
    ensures
        vars_before(cs, src, start, m) == vars_before(cs, src, start, k),
    decreases m - k,
{
    if k < m {
        lemma_vars_stay(cs, src, start, k, m - 1);
    }
}

/// Whether `x` is among the texts.
pub fn text_listed(v: &Vec<Vec<char>>, x: &[char]) -> (r: bool)
    ensures
        r == char_texts(v@).contains(x@),
{
    let mut i: usize = 0;
    while i < v.len()
        invariant
            i <= v@.len(),
            forall|j: int| 0 <= j < i ==> (#[trigger] v@[j])@ != x@,
        decreases v@.len() - i,
    {
        if seq_eq(&v[i], x) {
            assert(char_texts(v@)[i as int] == x@);
            return true;
        }
        i += 1;
    }
    assert forall|j: int| 0 <= j < char_texts(v@).len() implies char_texts(v@)[j] != x@ by {
        assert(char_texts(v@)[j] == v@[j]@);
    }
    false
}

fn last_type_of(ds: &Vec<(Vec<char>, Option<Vec<char>>)>, n: &[char]) -> (r: Option<Vec<char>>)
    ensures
        opt_chars(r) == last_type(decl_views(ds@), n@),
{
    let ghost dv = decl_views(ds@);
    let mut k: usize = ds.len();
    assert(dv.take(k as int) =~= dv);
    while k > 0
        invariant
            k <= ds@.len(),
            dv == decl_views(ds@),
            last_type(dv, n@) == last_type(dv.take(k as int), n@),
        decreases k,
    {
        assert(dv.take(k as int).drop_last() =~= dv.take(k - 1));
        if seq_eq(&ds[k - 1].0, n) {
            return match &ds[k - 1].1 {
                Some(t) => Some(slice_of(t, 0, t.len())),
                None => None,
            };
        }
        k -= 1;
    }
    None
}

/// The names declared before the statements that the statements use and do
/// not declare themselves.
pub open spec fn capturable(ds: Seq<Decl>, ids: Seq<Seq<char>>, locals: Seq<Seq<char>>) -> Set<Seq<char>> {
    Set::new(|n: Seq<char>| (exists|i: int| 0 <= i < ds.len() && ds[i].0 == n) && ids.contains(n) && !locals.contains(n))
}

/// The captured variables: each capturable name once, in order, with the
/// type of its last declaration, whether the statements assign it, and
/// whether the body uses it after the statements.
pub open spec fn captured_ok(
    r: Seq<CapturedVar>,
    ds: Seq<Decl>,
    ids: Seq<Seq<char>>,
    locals: Seq<Seq<char>>,
    ss: Seq<SyntaxNode>,
    body: SyntaxNode,
    src: Seq<char>,
    end: usize,
) -> bool {
    &&& strictly_sorted(cap_names(r))
    &&& cap_names(r).to_set() == capturable(ds, ids, locals)
    &&& forall|i: int|
        0 <= i < r.len() ==> {
            let c = #[trigger] r[i];
            &&& opt_view(c.type_hint) == last_type(ds, c.name@)
            &&& c.is_written == assigned_in(ss, src, c.name@)
            &&& c.is_used_after == used_after(body, src, c.name@, end)
            &&& !c.needs_var_declaration
        }
}

fn capturable_names(ds: &Vec<(Vec<char>, Option<Vec<char>>)>, ids: &Vec<Vec<char>>, locals: &Vec<Vec<char>>) -> (r: Vec<Vec<char>>)
    ensures
        strictly_sorted(char_texts(r@)),
        char_texts(r@).to_set() == capturable(decl_views(ds@), char_texts(ids@), char_texts(locals@)),
{
    let ghost dv = decl_views(ds@);
    let ghost iv = char_texts(ids@);
    let ghost lv = char_texts(locals@);
    let mut cand: Vec<Vec<char>> = Vec::new();
    let mut k: usize = 0;
    while k < ds.len()
        invariant
            k <= ds@.len(),
            dv == decl_views(ds@),
            iv == char_texts(ids@),
            lv == char_texts(locals@),
            forall|n: Seq<char>| #[trigger] char_texts(cand@).contains(n) <==> ((exists|i: int| 0 <= i < k && dv[i].0 == n)
                && iv.contains(n) && !lv.contains(n)),
        decreases ds@.len() - k,
    {
        let d = &ds[k].0;
        assert(dv[k as int].0 == d@);
        let ghost before = char_texts(cand@);
        let keep = text_listed(ids, d) && !text_listed(locals, d);
        if keep {
            let x = slice_of(d, 0, d.len());
            assert(x@ =~= d@);
            cand.push(x);
            assert(char_texts(cand@) =~= before.push(d@));
        } else {
            assert(char_texts(cand@) == before);
        }
        assert forall|n: Seq<char>| #[trigger] char_texts(cand@).contains(n) <==> ((exists|i: int| 0 <= i < k + 1 && dv[i].0 == n)
            && iv.contains(n) && !lv.contains(n)) by {
            assert(before.contains(n) <==> ((exists|i: int| 0 <= i < k && dv[i].0 == n) && iv.contains(n) && !lv.contains(n)));
            assert((exists|i: int| 0 <= i < k + 1 && dv[i].0 == n) <==> ((exists|i: int| 0 <= i < k && dv[i].0 == n) || dv[k as int].0 == n)) by {
                if exists|i: int| 0 <= i < k + 1 && dv[i].0 == n {
                    let i = choose|i: int| 0 <= i < k + 1 && dv[i].0 == n;
                    if i < k {
                        assert(exists|i: int| 0 <= i < k && dv[i].0 == n);
                    }
                }
                if dv[k as int].0 == n {
                    assert(0 <= k < k + 1 && dv[k as int].0 == n);
                }
            }
            if keep {
                assert(char_texts(cand@).contains(n) <==> (before.contains(n) || n == d@)) by {
                    if char_texts(cand@).contains(n) {
                        let j = choose|j: int| 0 <= j < char_texts(cand@).len() && char_texts(cand@)[j] == n;
                        if j < before.len() {
                            assert(before[j] == n);
                        }
                    }
                    if before.contains(n) {
                        let j = choose|j: int| 0 <= j < before.len() && before[j] == n;
                        assert(char_texts(cand@)[j] == n);
                    }
                    if n == d@ {
                        assert(char_texts(cand@)[before.len() as int] == n);
                    }
                }
            }
        }
        k += 1;
    }
    let sorted = crate::refactor::move_symbol::sort_unique(&cand);
    assert(char_texts(cand@).to_set() =~= capturable(dv, iv, lv));
    sorted
}

/// Find the variables the statements `idx` capture from the enclosing function.
#[verifier::rlimit(60)]
pub fn find_captured_variables(
    func: &SyntaxNode,
    body: &SyntaxNode,
    source: &str,
    range_idents: &Vec<Vec<char>>,
    local_decls: &Vec<Vec<char>>,
    idx: &[usize],
    extracted_range: (usize, usize),
) -> (r: Vec<CapturedVar>)
    requires
        tree_ok(source@, *func),
        tree_ok(source@, *body),
        forall|j: int| 0 <= j < idx@.len() ==> #[trigger] idx@[j] < body.children@.len(),
    ensures
        captured_ok(
            r@,
            decls_before(*func, *body, source@, extracted_range.0),
            char_texts(range_idents@),
            char_texts(local_decls@),
            stmts_at(*body, idx@),
            *body,
            source@,
            extracted_range.1,
        ),
{
    let ds = declarations_before(func, body, source, extracted_range.0);
    let ghost dv = decl_views(ds@);
    let names = capturable_names(&ds, range_idents, local_decls);
    let mut out: Vec<CapturedVar> = Vec::new();
    let mut i: usize = 0;
    while i < names.len()
        invariant
            i <= names@.len(),
            dv == decl_views(ds@),
            tree_ok(source@, *body),
            forall|j: int| 0 <= j < idx@.len() ==> #[trigger] idx@[j] < body.children@.len(),
            cap_names(out@) == char_texts(names@).take(i as int),
            forall|q: int|
                0 <= q < out@.len() ==> {
                    let c = #[trigger] out@[q];
                    &&& opt_view(c.type_hint) == last_type(dv, c.name@)
                    &&& c.is_written == assigned_in(stmts_at(*body, idx@), source@, c.name@)
                    &&& c.is_used_after == used_after(*body, source@, c.name@, extracted_range.1)
                    &&& !c.needs_var_declaration
                },
        decreases names@.len() - i,
    {
        let n = string_of(&names[i]);
        let t = last_type_of(&ds, &names[i]);
        let th: Option<String> = match t {
            Some(v) => Some(string_of(&v)),
            None => None,
        };
        let w = is_assigned_in_statements(n.as_str(), body, idx, source);
        let u = is_used_after_range(n.as_str(), body, source, extracted_range.1);
        let ghost prev = cap_names(out@);
        out.push(CapturedVar { name: n, type_hint: th, is_written: w, is_used_after: u, needs_var_declaration: false });
        assert(cap_names(out@) =~= prev.push(names@[i as int]@));
        assert(char_texts(names@).take(i + 1) =~= char_texts(names@).take(i as int).push(names@[i as int]@));
        i += 1;
    }
    assert(char_texts(names@).take(i as int) =~= char_texts(names@));
    out
}

// ── Variables declared inside and used after ───────────────────────────────

/// The type hint of the first `var name` found in a pre-order search (a
/// declaration without a hint lets the search go on).
pub open spec fn var_hint(n: SyntaxNode, src: Seq<char>, name: Seq<char>) -> Option<Seq<char>>
    decreases n, n.children@.len() + 1,
{
    if n.kind@ == "variable_statement"@ && field_text(n, "name"@, src) == Some(name) {
        field_text(n, "type"@, src)
    } else {
        var_hint_in_children(n, src, name, n.children@.len() as int)
    }
}

/// The first hint found under the first `k` children.
pub open spec fn var_hint_in_children(n: SyntaxNode, src: Seq<char>, name: Seq<char>, k: int) -> Option<Seq<char>>
    decreases n, k,
{
    if k <= 0 || k > n.children@.len() {
        None
    } else {
        match var_hint_in_children(n, src, name, k - 1) {
            Some(t) => Some(t),
            None => var_hint(n.children@[k - 1], src, name),
        }
    }
}

/// The first hint found in the first `k` statements.
pub open spec fn var_hint_in(ss: Seq<SyntaxNode>, src: Seq<char>, name: Seq<char>, k: int) -> Option<Seq<char>>
    decreases k,
{
    if k <= 0 || k > ss.len() {
        None
    } else {
        match var_hint_in(ss, src, name, k - 1) {
            Some(t) => Some(t),
            None => var_hint(ss[k - 1], src, name),
        }
    }
}

proof fn lemma_hint_found(n: SyntaxNode, src: Seq<char>, name: Seq<char>, k: int, m: int)
    requires
        0 <= k <= m <= n.children@.len(),
        var_hint_in_children(n, src, name, k) is Some,
    ensures
        var_hint_in_children(n, src, name, m) == var_hint_in_children(n, src, name, k),
    decreases m - k,
{
    if k < m {
        lemma_hint_found(n, src, name, k, m - 1);
    }
}

proof fn lemma_hint_in_found(ss: Seq<SyntaxNode>, src: Seq<char>, name: Seq<char>, k: int, m: int)
    requires
        0 <= k <= m <= ss.len(),
        var_hint_in(ss, src, name, k) is Some,
    ensures
        var_hint_in(ss, src, name, m) == var_hint_in(ss, src, name, k),
    decreases m - k,
{
    if k < m {
        lemma_hint_in_found(ss, src, name, k, m - 1);
    }
}

#[verifier::rlimit(40)]
fn find_var_type_hint_recursive(node: &SyntaxNode, name: &str, source: &str) -> (r: Option<String>)
    requires
        tree_ok(source@, *node),
    ensures
        opt_view(r) == var_hint(*node, source@, name@),
    decreases node,
{
    if kind_is(node, "variable_statement") {
        match crate::syntax::child_by_field_name(node, "name") {
            Some(nn) => {
                assert(tree_ok(source@, *nn));
                if str_eq(node_text(nn, source).as_str(), name) {
                    return match crate::syntax::child_by_field_name(node, "type") {
                        Some(t) => {
                            assert(tree_ok(source@, *t));
                            Some(node_text(t, source))
                        },
                        None => None,
                    };
                }
            },
            None => {},
        }
    }
    let mut i: usize = 0;
    while i < node.children.len()
        invariant
            i <= node.children@.len(),
            tree_ok(source@, *node),
            !(node.kind@ == "variable_statement"@ && field_text(*node, "name"@, source@) == Some(name@)),
            var_hint_in_children(*node, source@, name@, i as int) is None,
        decreases node.children@.len() - i,
    {
        assert(tree_ok(source@, node.children@[i as int]));
        let h = find_var_type_hint_recursive(&node.children[i], name, source);
        if h.is_some() {
            proof {
                assert(var_hint_in_children(*node, source@, name@, i + 1) == var_hint(node.children@[i as int], source@, name@));
                lemma_hint_found(*node, source@, name@, i + 1, node.children@.len() as int);
            }
            return h;
        }
        i += 1;
    }
    None
}

/// Find the type hint of a `var` declared in the statements `idx` of `body`.
#[verifier::rlimit(40)]
pub fn find_var_type_hint(name: &str, body: &SyntaxNode, idx: &[usize], source: &str) -> (r: Option<String>)
    requires
        tree_ok(source@, *body),
        forall|j: int| 0 <= j < idx@.len() ==> #[trigger] idx@[j] < body.children@.len(),
    ensures
        opt_view(r) == var_hint_in(stmts_at(*body, idx@), source@, name@, idx@.len() as int),
{
    let ghost ss = stmts_at(*body, idx@);
    let mut k: usize = 0;
    while k < idx.len()
        invariant
            k <= idx@.len(),
            ss == stmts_at(*body, idx@),
            tree_ok(source@, *body),
            forall|j: int| 0 <= j < idx@.len() ==> #[trigger] idx@[j] < body.children@.len(),
            var_hint_in(ss, source@, name@, k as int) is None,
        decreases idx@.len() - k,
    {
        assert(ss[k as int] == body.children@[idx@[k as int] as int]);
        assert(tree_ok(source@, body.children@[idx@[k as int] as int]));
        let h = find_var_type_hint_recursive(&body.children[idx[k]], name, source);
        if h.is_some() {
            proof {
                lemma_hint_in_found(ss, source@, name@, k + 1, ss.len() as int);
            }
            return h;
        }
        k += 1;
    }
    None
}

/// Find the variables declared in the statements and used after them: each
/// once, in order, to be returned and declared at the call site.
#[verifier::rlimit(60)]
pub fn find_local_return_vars(
    local_decls: &Vec<Vec<char>>,
    body: &SyntaxNode,
    idx: &[usize],
    source: &str,
    range_end: usize,
) -> (r: Vec<CapturedVar>)
    requires
        tree_ok(source@, *body),
        forall|j: int| 0 <= j < idx@.len() ==> #[trigger] idx@[j] < body.children@.len(),
    ensures
        strictly_sorted(cap_names(r@)),
        cap_names(r@).to_set() == Set::new(
            |n: Seq<char>| char_texts(local_decls@).contains(n) && used_after(*body, source@, n, range_end),
        ),
        forall|i: int|
            0 <= i < r@.len() ==> {
                let c = #[trigger] r@[i];
                &&& opt_view(c.type_hint) == var_hint_in(stmts_at(*body, idx@), source@, c.name@, idx@.len() as int)
                &&& c.is_written && c.is_used_after && c.needs_var_declaration
            },
{
    let names = crate::refactor::move_symbol::sort_unique(local_decls);
    let ghost nv = char_texts(names@);
    let mut out: Vec<CapturedVar> = Vec::new();
    let ghost mut ix: Seq<int> = Seq::empty();
    let mut i: usize = 0;
    while i < names.len()
        invariant
            i <= names@.len(),
            nv == char_texts(names@),
            tree_ok(source@, *body),
            forall|j: int| 0 <= j < idx@.len() ==> #[trigger] idx@[j] < body.children@.len(),
            strictly_sorted(nv),
            ix.len() == out@.len(),
            forall|q: int| 0 <= q < ix.len() ==> 0 <= #[trigger] ix[q] < i && cap_names(out@)[q] == nv[ix[q]],
            forall|p: int, q: int| 0 <= p < q < ix.len() ==> #[trigger] ix[p] < #[trigger] ix[q],
            forall|n: Seq<char>| #[trigger] cap_names(out@).contains(n) <==> (exists|j: int| 0 <= j < i && nv[j] == n
                && used_after(*body, source@, n, range_end)),
            forall|q: int|
                0 <= q < out@.len() ==> {
                    let c = #[trigger] out@[q];
                    &&& opt_view(c.type_hint) == var_hint_in(stmts_at(*body, idx@), source@, c.name@, idx@.len() as int)
                    &&& c.is_written && c.is_used_after && c.needs_var_declaration
                },
        decreases names@.len() - i,
    {
        let n = string_of(&names[i]);
        assert(n@ == nv[i as int]);
        let ghost prev = cap_names(out@);
        let used = is_used_after_range(n.as_str(), body, source, range_end);
        if used {
            let th = find_var_type_hint(n.as_str(), body, idx, source);
            out.push(CapturedVar { name: n, type_hint: th, is_written: true, is_used_after: true, needs_var_declaration: true });
            proof {
                ix = ix.push(i as int);
            }
            assert(cap_names(out@) =~= prev.push(nv[i as int]));
        }
        assert forall|m: Seq<char>| #[trigger] cap_names(out@).contains(m) <==> (exists|j: int| 0 <= j < i + 1 && nv[j] == m
            && used_after(*body, source@, m, range_end)) by {
            assert(prev.contains(m) <==> (exists|j: int| 0 <= j < i && nv[j] == m && used_after(*body, source@, m, range_end)));
            if used {
                if cap_names(out@).contains(m) {
                    let q = choose|q: int| 0 <= q < cap_names(out@).len() && cap_names(out@)[q] == m;
                    if q < prev.len() {
                        assert(prev[q] == m);
                    }
                }
                if prev.contains(m) {
                    let q = choose|q: int| 0 <= q < prev.len() && prev[q] == m;
                    assert(cap_names(out@)[q] == m);
                }
                if m == nv[i as int] {
                    assert(cap_names(out@)[prev.len() as int] == m);
                }
            }
            if exists|j: int| 0 <= j < i + 1 && nv[j] == m && used_after(*body, source@, m, range_end) {
                let j = choose|j: int| 0 <= j < i + 1 && nv[j] == m && used_after(*body, source@, m, range_end);
                if j == i {
                    assert(used);
                }
            }
        }
        i += 1;
    }
    proof {
        let cn = cap_names(out@);
        assert forall|p: int, q: int| 0 <= p < q < cn.len() implies crate::text::lex_lt(#[trigger] cn[p], #[trigger] cn[q]) by {
            assert(ix[p] < ix[q]);
        }
        assert forall|m: Seq<char>| cn.to_set().contains(m) <==> (char_texts(local_decls@).contains(m) && used_after(*body, source@, m, range_end)) by {
            assert(cn.to_set().contains(m) == cn.contains(m));
            assert(nv.to_set().contains(m) == nv.contains(m));
            assert(char_texts(local_decls@).to_set().contains(m) == char_texts(local_decls@).contains(m));
            if nv.contains(m) {
                let j = choose|j: int| 0 <= j < nv.len() && nv[j] == m;
                assert(0 <= j < i && nv[j] == m);
            }
        }
        assert(cn.to_set() =~= Set::new(
            |n: Seq<char>| char_texts(local_decls@).contains(n) && used_after(*body, source@, n, range_end),
        ));
    }
    out
}

// ── The extracted function ─────────────────────────────────────────────────

/// The `k`-th candidate name for the result dictionary: `_result`, then
/// `_result2`, `_result3`, ...
pub open spec fn result_candidate(k: nat) -> Seq<char> {
    if k < 2 {
        "_result"@
    } else {
        "_result"@ + decimal(k)
    }
}

/// The first candidate from the `k`-th on that is not among `ids`, trying no
/// further than the `bound`-th.
pub open spec fn first_free(ids: Seq<Seq<char>>, k: nat, bound: nat) -> Seq<char>
    decreases bound - k,
{
    if k >= bound || !ids.contains(result_candidate(k)) {
        result_candidate(k)
    } else {
        first_free(ids, k + 1, bound)
    }
}

/// The name of the result dictionary: the first candidate the body does not
/// use (among more candidates than the body has names, one is always free).
pub open spec fn result_name(ids: Seq<Seq<char>>) -> Seq<char> {
    first_free(ids, 1, if ids.len() + 2 <= usize::MAX { (ids.len() + 2) as nat } else { usize::MAX as nat })
}

/// Pick a name for the result variable that no name in the body uses.
pub fn pick_result_name(source: &str, body: &SyntaxNode) -> (r: String)
    requires
        tree_ok(source@, *body),
    ensures
        r@ == result_name(idents_of(*body, source@)),
{
    let mut ids: Vec<Vec<char>> = Vec::new();
    push_idents(body, source, &mut ids);
    assert(char_texts(ids@) =~= idents_of(*body, source@));
    let bound: usize = if ids.len() <= usize::MAX - 2 { ids.len() + 2 } else { usize::MAX };
    let mut k: usize = 1;
    loop
        invariant
            1 <= k <= bound,
            bound == (if ids@.len() + 2 <= usize::MAX { (ids@.len() + 2) as nat } else { usize::MAX as nat }),
            result_name(char_texts(ids@)) == first_free(char_texts(ids@), k as nat, bound as nat),
            char_texts(ids@) == idents_of(*body, source@),
        decreases bound - k,
    {
        let cand: String = if k < 2 {
            String::from_str("_result")
        } else {
            let d = crate::text::decimal_string(k);
            concat_strs(&["_result", d.as_str()])
        };
        proof {
            reveal_with_fuel(concat_views, 3);
        }
        assert(cand@ == result_candidate(k as nat));
        let cc = chars_of(cand.as_str());
        if k >= bound || !text_listed(&ids, &cc) {
            return cand;
        }
        k += 1;
    }
}

/// A parameter of the extracted function: `name` or `name: Type`.
pub open spec fn param_decl_text(p: CapturedVar) -> Seq<char> {
    match p.type_hint {
        Some(t) => p.name@ + seq![':', ' '] + t@,
        None => p.name@,
    }
}

/// The extracted function's parameter list.
pub open spec fn params_decl_text(ps: Seq<CapturedVar>) -> Seq<char> {
    join(ps.map_values(|p: CapturedVar| param_decl_text(p)), seq![',', ' '])
}

/// `func name(params)[ -> Type]:`, the type being the returned variable's.
pub open spec fn extracted_signature(name: Seq<char>, ps: Seq<CapturedVar>, ret: Option<CapturedVar>) -> Seq<char> {
    "func "@ + name + "("@ + params_decl_text(ps) + ")"@ + (match ret {
        Some(r) => match r.type_hint {
            Some(t) => " -> "@ + t@,
            None => Seq::empty(),
        },
        None => Seq::empty(),
    }) + ":"@
}

/// The extracted function: the signature, the statements re-indented one
/// level, and the return of the returned variable.
pub open spec fn extracted_function(name: Seq<char>, ps: Seq<CapturedVar>, ret: Option<CapturedVar>, body: Seq<char>) -> Seq<char> {
    extracted_signature(name, ps, ret) + seq!['\n'] + reindented(body, seq!['\t']) + match ret {
        Some(r) => "\n\treturn "@ + r.name@,
        None => Seq::empty(),
    }
}

/// `func name(params) -> Dictionary:`.
pub open spec fn multi_signature(name: Seq<char>, ps: Seq<CapturedVar>) -> Seq<char> {
    "func "@ + name + "("@ + params_decl_text(ps) + ") -> Dictionary:"@
}

/// One entry of the returned dictionary: `"name": name`.
pub open spec fn dict_entry(v: CapturedVar) -> Seq<char> {
    "\""@ + v.name@ + "\": "@ + v.name@
}

/// The extracted function returning several variables in a dictionary.
pub open spec fn extracted_function_multi(name: Seq<char>, ps: Seq<CapturedVar>, rvs: Seq<CapturedVar>, body: Seq<char>) -> Seq<char> {
    multi_signature(name, ps) + seq!['\n'] + reindented(body, seq!['\t']) + "\n\treturn {"@ + join(
        rvs.map_values(|v: CapturedVar| dict_entry(v)),
        seq![',', ' '],
    ) + "}"@
}

fn params_decl(ps: &[CapturedVar]) -> (r: Vec<char>)
    ensures
        r@ == params_decl_text(ps@),
{
    let mut parts: Vec<Vec<char>> = Vec::new();
    let mut i: usize = 0;
    while i < ps.len()
        invariant
            i <= ps@.len(),
            parts@.map_values(|v: Vec<char>| v@) == ps@.take(i as int).map_values(|p: CapturedVar| param_decl_text(p)),
        decreases ps@.len() - i,
    {
        let p = &ps[i];
        let mut t = chars_of(p.name.as_str());
        match &p.type_hint {
            Some(th) => {
                t.push(':');
                t.push(' ');
                extend_str(&mut t, th.as_str());
            },
            None => {},
        }
        assert(t@ =~= param_decl_text(*p));
        let ghost prev = parts@.map_values(|v: Vec<char>| v@);
        parts.push(t);
        assert(parts@.map_values(|v: Vec<char>| v@) =~= prev.push(param_decl_text(*p)));
        assert(ps@.take(i + 1) =~= ps@.take(i as int).push(ps@[i as int]));
        i += 1;
    }
    assert(ps@.take(i as int) =~= ps@);
    let sep: [char; 2] = [',', ' '];
    assert(sep@ =~= seq![',', ' ']);
    join_lines(&parts, &sep)
}

/// Generate the extracted function text and its signature.
pub fn generate_extracted_function(
    name: &str,
    params: &[CapturedVar],
    return_var: Option<&CapturedVar>,
    body_text: &str,
) -> (r: (String, String))
    requires
        reindent_ok(body_text@),
    ensures
        r.0@ == extracted_function(name@, params@, opt_var(return_var), body_text@),
        r.1@ == extracted_signature(name@, params@, opt_var(return_var)),
{
    let mut sig: Vec<char> = Vec::new();
    extend_str(&mut sig, "func ");
    extend_str(&mut sig, name);
    extend_str(&mut sig, "(");
    extend(&mut sig, &params_decl(params));
    extend_str(&mut sig, ")");
    match return_var {
        Some(rv) => match &rv.type_hint {
            Some(t) => {
                extend_str(&mut sig, " -> ");
                extend_str(&mut sig, t.as_str());
            },
            None => {},
        },
        None => {},
    }
    extend_str(&mut sig, ":");
    assert(sig@ =~= extracted_signature(name@, params@, opt_var(return_var)));
    let body = re_indent(body_text);
    let mut f: Vec<char> = Vec::new();
    extend(&mut f, &sig);
    f.push('\n');
    extend_str(&mut f, body.as_str());
    match return_var {
        Some(rv) => {
            extend_str(&mut f, "\n\treturn ");
            extend_str(&mut f, rv.name.as_str());
        },
        None => {},
    }
    assert(f@ =~= extracted_function(name@, params@, opt_var(return_var), body_text@));
    (string_of(&f), string_of(&sig))
}

/// Generate an extracted function that returns a dictionary of several values.
pub fn generate_extracted_function_multi_return(
    name: &str,
    params: &[CapturedVar],
    return_vars: &[CapturedVar],
    body_text: &str,
) -> (r: (String, String))
    requires
        reindent_ok(body_text@),
    ensures
        r.0@ == extracted_function_multi(name@, params@, return_vars@, body_text@),
        r.1@ == multi_signature(name@, params@),
{
    let mut sig: Vec<char> = Vec::new();
    extend_str(&mut sig, "func ");
    extend_str(&mut sig, name);
    extend_str(&mut sig, "(");
    extend(&mut sig, &params_decl(params));
    extend_str(&mut sig, ") -> Dictionary:");
    assert(sig@ =~= multi_signature(name@, params@));
    let mut parts: Vec<Vec<char>> = Vec::new();
    let mut i: usize = 0;
    while i < return_vars.len()
        invariant
            i <= return_vars@.len(),
            parts@.map_values(|v: Vec<char>| v@) == return_vars@.take(i as int).map_values(|v: CapturedVar| dict_entry(v)),
        decreases return_vars@.len() - i,
    {
        let v = &return_vars[i];
        let mut t: Vec<char> = Vec::new();
        extend_str(&mut t, "\"");
        extend_str(&mut t, v.name.as_str());
        extend_str(&mut t, "\": ");
        extend_str(&mut t, v.name.as_str());
        assert(t@ =~= dict_entry(*v));
        let ghost prev = parts@.map_values(|v: Vec<char>| v@);
        parts.push(t);
        assert(parts@.map_values(|v: Vec<char>| v@) =~= prev.push(dict_entry(*v)));
        assert(return_vars@.take(i + 1) =~= return_vars@.take(i as int).push(return_vars@[i as int]));
        i += 1;
    }
    assert(return_vars@.take(i as int) =~= return_vars@);
    let sep: [char; 2] = [',', ' '];
    assert(sep@ =~= seq![',', ' ']);
    let entries = join_lines(&parts, &sep);
    let body = re_indent(body_text);
    let mut f: Vec<char> = Vec::new();
    extend(&mut f, &sig);
    f.push('\n');
    extend_str(&mut f, body.as_str());
    extend_str(&mut f, "\n\treturn {");
    extend(&mut f, &entries);
    extend_str(&mut f, "}");
    assert(f@ =~= extracted_function_multi(name@, params@, return_vars@, body_text@));
    (string_of(&f), string_of(&sig))
}

// ── Checking the selection ─────────────────────────────────────────────────

/// The first of the first `k` statements with a jump out of a loop outside the selection.
pub open spec fn escaping_in(ss: Seq<SyntaxNode>, sel: (usize, usize), k: int) -> Option<Seq<char>>
    decreases k,
{
    if k <= 0 || k > ss.len() {
        None
    } else {
        match escaping_in(ss, sel, k - 1) {
            Some(x) => Some(x),
            None => escaping(ss[k - 1], sel, None),
        }
    }
}

/// Whether the 0-based lines `start..=end` of the function's body can be
/// extracted: the body and the selected statements' positions, or the
/// message of the error.
pub open spec fn extract_check(func: SyntaxNode, start: usize, end: usize) -> Result<(SyntaxNode, Seq<int>), Seq<char>> {
    match field_child(func, "body"@) {
        None => Err(extract_error_message(ExtractError::NoBody)),
        Some(body) => if start < body.start_row || end > body.end_row {
            Err(extract_error_message(ExtractError::OutsideBody))
        } else {
            match in_range(body.children@, start, end, body.children@.len() as int) {
                Err(c) => Err(extract_error_message(ExtractError::Misaligned(start, end, c.start_row, c.end_row))),
                Ok(ix) => if ix.len() == 0 {
                    Err(extract_error_message(ExtractError::NoStatements))
                } else {
                    selection_check(body, ix, start, end)
                },
            }
        },
    }
}

/// The checks on the selected statements themselves.
pub open spec fn selection_check(body: SyntaxNode, ix: Seq<int>, start: usize, end: usize) -> Result<(SyntaxNode, Seq<int>), Seq<char>> {
    let ss = ix.map_values(|i: int| body.children@[i]);
    let first = ss[0];
    let last = ss.last();
    if first.start_row != start {
        Err(extract_error_message(ExtractError::StartMisaligned(start, first.start_row)))
    } else if last.end_row != end {
        Err(extract_error_message(ExtractError::EndMisaligned(end, last.end_row)))
    } else if exists|i: int| 0 <= i < ss.len() && has_kind(ss[i], "return_statement"@) {
        Err(extract_error_message(ExtractError::ContainsReturn))
    } else {
        match escaping_in(ss, (first.start_byte, last.end_byte), ss.len() as int) {
            Some(k) => Err("cannot extract code containing '"@ + k + "' \u{2014} it would be invalid outside its loop"@),
            None => Ok((body, ix)),
        }
    }
}

#[verifier::rlimit(60)]
fn check_selection(body: &SyntaxNode, idx: &Vec<usize>, start: usize, end: usize) -> (r: Result<(), ExtractError>)
    requires
        idx@.len() > 0,
        forall|j: int| 0 <= j < idx@.len() ==> #[trigger] idx@[j] < body.children@.len(),
    ensures
        match r {
            Ok(()) => selection_check(*body, idx@.map_values(|i: usize| i as int), start, end) == Ok::<_, Seq<char>>(
                (*body, idx@.map_values(|i: usize| i as int)),
            ),
            Err(e) => selection_check(*body, idx@.map_values(|i: usize| i as int), start, end) == Err::<
                (SyntaxNode, Seq<int>),
                _,
            >(extract_error_message(e)),
        },
{
    let ghost ix = idx@.map_values(|i: usize| i as int);
    let ghost ss = ix.map_values(|i: int| body.children@[i]);
    assert(ss =~= stmts_at(*body, idx@));
    let first = &body.children[idx[0]];
    let last = &body.children[idx[idx.len() - 1]];
    if first.start_row != start {
        return Err(ExtractError::StartMisaligned(start, first.start_row));
    }
    if last.end_row != end {
        return Err(ExtractError::EndMisaligned(end, last.end_row));
    }
    let mut k: usize = 0;
    while k < idx.len()
        invariant
            k <= idx@.len(),
            ss == stmts_at(*body, idx@),
            forall|j: int| 0 <= j < idx@.len() ==> #[trigger] idx@[j] < body.children@.len(),
            forall|j: int| 0 <= j < k ==> !has_kind(#[trigger] ss[j], "return_statement"@),
            ss[0].start_row == start,
            ss.last().end_row == end,
            ss.len() == idx@.len(),
            ix == idx@.map_values(|i: usize| i as int),
            ss == ix.map_values(|i: int| body.children@[i]),
        decreases idx@.len() - k,
    {
        assert(ss[k as int] == body.children@[idx@[k as int] as int]);
        if contains_node_kind(&body.children[idx[k]], "return_statement") {
            assert(has_kind(ss[k as int], "return_statement"@));
            return Err(ExtractError::ContainsReturn);
        }
        k += 1;
    }
    let sel = (first.start_byte, last.end_byte);
    let mut k: usize = 0;
    while k < idx.len()
        invariant
            k <= idx@.len(),
            ss == stmts_at(*body, idx@),
            forall|j: int| 0 <= j < idx@.len() ==> #[trigger] idx@[j] < body.children@.len(),
            escaping_in(ss, sel, k as int) is None,
            forall|j: int| 0 <= j < ss.len() ==> !has_kind(#[trigger] ss[j], "return_statement"@),
            ss[0].start_row == start,
            ss.last().end_row == end,
            ss.len() == idx@.len(),
            sel == (ss[0].start_byte, ss.last().end_byte),
            ix == idx@.map_values(|i: usize| i as int),
            ss == ix.map_values(|i: int| body.children@[i]),
        decreases idx@.len() - k,
    {
        assert(ss[k as int] == body.children@[idx@[k as int] as int]);
        match find_escaping_loop_control(&body.children[idx[k]], sel, None) {
            Some(kw) => {
                proof {
                    lemma_escaping_in_found(ss, sel, k + 1, ss.len() as int);
                }
                return Err(ExtractError::EscapingControl(kw));
            },
            None => {},
        }
        k += 1;
    }
    Ok(())
}

proof fn lemma_escaping_in_found(ss: Seq<SyntaxNode>, sel: (usize, usize), k: int, m: int)
    requires
        0 <= k <= m <= ss.len(),
        escaping_in(ss, sel, k) is Some,
    ensures
        escaping_in(ss, sel, m) == escaping_in(ss, sel, k),
    decreases m - k,
{
    if k < m {
        lemma_escaping_in_found(ss, sel, k, m - 1);
    }
}

/// Check that the 0-based lines `start_line..=end_line` of the function's
/// body can be extracted; gives the body and the selected statements.
pub fn check_extraction<'a>(func: &'a SyntaxNode, start_line: usize, end_line: usize) -> (r: Result<(&'a SyntaxNode, Vec<usize>), ExtractError>)
    ensures
        match r {
            Ok((b, idx)) => {
                &&& extract_check(*func, start_line, end_line) == Ok::<_, Seq<char>>(
                    (*b, idx@.map_values(|i: usize| i as int)),
                )
                &&& exists|j: int| 0 <= j < func.children@.len() && func.children@[j] == *b
                &&& idx@.len() > 0
                &&& forall|j: int| 0 <= j < idx@.len() ==> #[trigger] idx@[j] < b.children@.len()
            },
            Err(e) => extract_check(*func, start_line, end_line) == Err::<(SyntaxNode, Seq<int>), _>(
                extract_error_message(e),
            ),
        },
{
    let body = match crate::syntax::child_by_field_name(func, "body") {
        Some(b) => b,
        None => return Err(ExtractError::NoBody),
    };
    if start_line < body.start_row || end_line > body.end_row {
        return Err(ExtractError::OutsideBody);
    }
    let idx = collect_statements_in_range(body, start_line, end_line)?;
    if idx.len() == 0 {
        return Err(ExtractError::NoStatements);
    }
    check_selection(body, &idx, start_line, end_line)?;
    Ok((body, idx))
}

// ── Putting the extraction together ────────────────────────────────────────

fn copy_var(c: &CapturedVar) -> (r: CapturedVar)
    ensures
        cap_view(r) == cap_view(*c),
{
    CapturedVar {
        name: String::from_str(c.name.as_str()),
        type_hint: match &c.type_hint {
            Some(t) => Some(String::from_str(t.as_str())),
            None => None,
        },
        is_written: c.is_written,
        is_used_after: c.is_used_after,
        needs_var_declaration: c.needs_var_declaration,
    }
}

/// The captured variables that the statements assign and the body uses later.
pub open spec fn written_and_used(v: Seq<CapturedVar>) -> Seq<(Seq<char>, Option<Seq<char>>, bool, bool, bool)> {
    v.filter(|c: CapturedVar| c.is_written && c.is_used_after).map_values(|c: CapturedVar| cap_view(c))
}

fn returned_captures(caps: &Vec<CapturedVar>) -> (r: Vec<CapturedVar>)
    ensures
        r@.map_values(|c: CapturedVar| cap_view(c)) == written_and_used(caps@),
{
    let mut out: Vec<CapturedVar> = Vec::new();
    let mut i: usize = 0;
    while i < caps.len()
        invariant
            i <= caps@.len(),
            out@.map_values(|c: CapturedVar| cap_view(c)) == written_and_used(caps@.take(i as int)),
        decreases caps@.len() - i,
    {
        let ghost prev = out@.map_values(|c: CapturedVar| cap_view(c));
        assert(caps@.take(i + 1).drop_last() =~= caps@.take(i as int));
        proof {
            reveal(Seq::filter);
        }
        if caps[i].is_written && caps[i].is_used_after {
            let c = copy_var(&caps[i]);
            out.push(c);
            assert(out@.map_values(|c: CapturedVar| cap_view(c)) =~= prev.push(cap_view(caps@[i as int])));
        } else {
            assert(out@.map_values(|c: CapturedVar| cap_view(c)) =~= prev);
        }
        i += 1;
    }
    assert(caps@.take(i as int) =~= caps@);
    out
}

/// The byte at which the line holding byte `p` starts.
pub open spec fn line_start_at(b: Seq<u8>, p: int) -> int
    decreases p,
{
    if p <= 0 {
        0
    } else if b[p - 1] == 10u8 {
        p
    } else {
        line_start_at(b, p - 1)
    }
}

/// The text of the selected statements, from the start of the first one's line.
pub open spec fn selection_text(src: Seq<char>, first: SyntaxNode, last: SyntaxNode) -> Seq<char> {
    text_between(src, line_start_at(encode_utf8(src), first.start_byte as int), last.end_byte as int)
}

fn selection_text_of(source: &str, first: &SyntaxNode, last: &SyntaxNode) -> (r: String)
    requires
        tree_ok(source@, *first),
        tree_ok(source@, *last),
        first.start_byte <= last.end_byte,
    ensures
        r@ == selection_text(source@, *first, *last),
{
    let b = source.as_bytes();
    let mut p: usize = first.start_byte;
    proof {
        vstd::utf8::encode_utf8_valid_utf8(source@);
    }
    while p > 0 && b[p - 1] != 10u8
        invariant
            p <= first.start_byte,
            first.start_byte <= b@.len(),
            b@ == encode_utf8(source@),
            line_start_at(b@, first.start_byte as int) == line_start_at(b@, p as int),
        decreases p,
    {
        p -= 1;
    }
    proof {
        vstd::utf8::is_char_boundary_start_end_of_seq(b@);
        if p > 0 {
            crate::syntax::lemma_after_newline_boundary(b@, p - 1);
        }
    }
    crate::syntax::slice_str(source, p, last.end_byte)
}

/// What the analysis of the selection finds.
pub struct Extraction {
    /// The captured variables: the new function's parameters.
    pub params: Vec<CapturedVar>,
    /// The variables to return: first the captured ones that are assigned
    /// and used later, then those declared in the selection and used later.
    pub return_vars: Vec<CapturedVar>,
    /// How many of the returned variables are captured ones.
    pub captured_count: usize,
    /// The selected text, from the start of its first line.
    pub body_text: String,
    /// The byte range of the selected statements.
    pub selection: (usize, usize),
}

/// What analysing the selected statements `idx` of a function's body gives:
/// the selection, the captured parameters, the returned variables and the
/// selected text.
#[verifier::opaque]
pub open spec fn analysis_of(func: SyntaxNode, body: SyntaxNode, idx: Seq<usize>, src: Seq<char>, r: Extraction) -> bool {

        let ss = stmts_at(body, idx);
        let sel = (ss[0].start_byte, ss.last().end_byte);
        &&& r.selection == sel
        &&& captured_ok(
            r.params@,
            decls_before(func, body, src, sel.0),
            stmt_idents(ss, src),
            stmt_decls(ss, src),
            ss,
            body,
            src,
            sel.1,
        )
        &&& r.captured_count <= r.return_vars@.len()
        &&& r.return_vars@.take(r.captured_count as int).map_values(|c: CapturedVar| cap_view(c)) == written_and_used(r.params@)
        &&& strictly_sorted(cap_names(r.return_vars@.skip(r.captured_count as int)))
        &&& cap_names(r.return_vars@.skip(r.captured_count as int)).to_set() == Set::new(
            |n: Seq<char>| stmt_decls(ss, src).contains(n) && used_after(body, src, n, sel.1),
        )
        &&& forall|i: int|
            0 <= i < r.return_vars@.skip(r.captured_count as int).len() ==> {
                let c = #[trigger] r.return_vars@.skip(r.captured_count as int)[i];
                &&& opt_view(c.type_hint) == var_hint_in(ss, src, c.name@, ss.len() as int)
                &&& c.is_written && c.is_used_after && c.needs_var_declaration
            }
        &&& r.body_text@ == selection_text(src, ss[0], ss.last())
}

/// Analyse the selected statements `idx` of the function's body.
#[verifier::rlimit(60)]
pub fn analyze_extraction(func: &SyntaxNode, body: &SyntaxNode, idx: &Vec<usize>, source: &str) -> (r: Extraction)
    requires
        tree_ok(source@, *func),
        tree_ok(source@, *body),
        well_nested(*body),
        idx@.len() > 0,
        forall|j: int| 0 <= j < idx@.len() ==> #[trigger] idx@[j] < body.children@.len(),
        forall|j: int, k: int| 0 <= j < k < idx@.len() ==> #[trigger] idx@[j] < #[trigger] idx@[k],
    ensures
        ({
            let ss = stmts_at(*body, idx@);
            let sel = (ss[0].start_byte, ss.last().end_byte);
            &&& r.selection == sel
            &&& captured_ok(
                r.params@,
                decls_before(*func, *body, source@, sel.0),
                stmt_idents(ss, source@),
                stmt_decls(ss, source@),
                ss,
                *body,
                source@,
                sel.1,
            )
            &&& r.captured_count <= r.return_vars@.len()
            &&& r.return_vars@.take(r.captured_count as int).map_values(|c: CapturedVar| cap_view(c)) == written_and_used(r.params@)
            &&& strictly_sorted(cap_names(r.return_vars@.skip(r.captured_count as int)))
            &&& cap_names(r.return_vars@.skip(r.captured_count as int)).to_set() == Set::new(
                |n: Seq<char>| stmt_decls(ss, source@).contains(n) && used_after(*body, source@, n, sel.1),
            )
            &&& forall|i: int|
                0 <= i < r.return_vars@.skip(r.captured_count as int).len() ==> {
                    let c = #[trigger] r.return_vars@.skip(r.captured_count as int)[i];
                    &&& opt_view(c.type_hint) == var_hint_in(ss, source@, c.name@, ss.len() as int)
                    &&& c.is_written && c.is_used_after && c.needs_var_declaration
                }
            &&& r.body_text@ == selection_text(source@, ss[0], ss.last())
        }),
{
    let ghost ss = stmts_at(*body, idx@);
    let first = &body.children[idx[0]];
    let last = &body.children[idx[idx.len() - 1]];
    assert(ss[0] == *first);
    assert(ss.last() == *last);
    assert(tree_ok(source@, *first));
    assert(tree_ok(source@, *last));
    assert(well_nested(*first));
    if idx.len() > 1 {
        assert(body.children@[idx@[0] as int].end_byte <= body.children@[idx@[idx@.len() - 1] as int].start_byte);
        assert(well_nested(*last));
    }
    let selection = (first.start_byte, last.end_byte);
    let ids = collect_identifiers(body, idx.as_slice(), source);
    let locals = collect_local_declarations(body, idx.as_slice(), source);
    let params = find_captured_variables(func, body, source, &ids, &locals, idx.as_slice(), selection);
    let mut return_vars = returned_captures(&params);
    let captured_count = return_vars.len();
    let mut local_returns = find_local_return_vars(&locals, body, idx.as_slice(), source, selection.1);
    let ghost cr = return_vars@;
    let ghost lr = local_returns@;
    return_vars.append(&mut local_returns);
    assert(return_vars@.take(captured_count as int) =~= cr);
    assert(return_vars@.skip(captured_count as int) =~= lr);
    let body_text = selection_text_of(source, first, last);
    Extraction { params, return_vars, captured_count, body_text, selection }
}

/// The warnings about an extraction: the new name collides with a visible
/// name; the statements await.
pub open spec fn extraction_warnings_spec(name: Seq<char>, col: Option<crate::refactor::collision::CollisionKind>, awaits: bool) -> Seq<Seq<char>> {
    (match col {
        Some(k) => seq!["'"@ + name + "' collides with a "@ + crate::refactor::collision::kind_text(k)],
        None => Seq::empty(),
    }) + if awaits {
        seq!["extracted code contains 'await' \u{2014} the caller may need adjustment"@]
    } else {
        Seq::empty()
    }
}

/// Whether one of the statements awaits.
pub open spec fn awaits_in(ss: Seq<SyntaxNode>) -> bool {
    exists|i: int| 0 <= i < ss.len() && has_kind(ss[i], "await_expression"@)
}

/// The warnings about extracting the statements `idx` into a function `name`.
pub fn extraction_warnings(
    root: &SyntaxNode,
    source: &str,
    func: &SyntaxNode,
    row: usize,
    name: &str,
    body: &SyntaxNode,
    idx: &[usize],
) -> (r: Vec<String>)
    requires
        tree_ok(source@, *root),
        tree_ok(source@, *func),
        forall|j: int| 0 <= j < idx@.len() ==> #[trigger] idx@[j] < body.children@.len(),
    ensures
        crate::refactor::inline_method::string_texts(r@) == extraction_warnings_spec(
            name@,
            crate::refactor::collision::scope_collision(name@, *root, source@, Some(*func), row),
            awaits_in(stmts_at(*body, idx@)),
        ),
{
    let mut w: Vec<String> = Vec::new();
    let scope = crate::refactor::collision::collect_scope_names(root, source, Some(func), row);
    proof {
        crate::refactor::collision::lemma_scope_collision(name@, scope, *root, source@, Some(*func), row);
    }
    match crate::refactor::collision::check_collision(name, &scope) {
        Some(k) => {
            w.push(concat_strs(&["'", name, "' collides with a ", k.describe()]));
            proof {
                reveal_with_fuel(concat_views, 5);
            }
        },
        None => {},
    }
    let ghost ss = stmts_at(*body, idx@);
    let mut k: usize = 0;
    let mut awaits = false;
    while k < idx.len()
        invariant
            k <= idx@.len(),
            ss == stmts_at(*body, idx@),
            forall|j: int| 0 <= j < idx@.len() ==> #[trigger] idx@[j] < body.children@.len(),
            awaits == (exists|j: int| 0 <= j < k && has_kind(ss[j], "await_expression"@)),
        decreases idx@.len() - k,
    {
        assert(ss[k as int] == body.children@[idx@[k as int] as int]);
        if contains_node_kind(&body.children[idx[k]], "await_expression") {
            awaits = true;
        }
        k += 1;
    }
    if awaits {
        w.push(String::from_str("extracted code contains 'await' \u{2014} the caller may need adjustment"));
    }
    proof {
        reveal_strlit("extracted code contains 'await' \u{2014} the caller may need adjustment");
    }
    assert(crate::refactor::inline_method::string_texts(w@) =~= extraction_warnings_spec(
        name@,
        crate::refactor::collision::scope_collision(name@, *root, source@, Some(*func), row),
        awaits_in(stmts_at(*body, idx@)),
    ));
    w
}

/// The variables the extracted function returns.
pub open spec fn all_returns(ex: Extraction) -> Seq<CapturedVar> {
    ex.return_vars@
}

/// The new function's text, its signature, and the call that replaces the
/// statements: one returned value is assigned; several come back in a
/// dictionary named `result` and are unpacked.
pub open spec fn extraction_texts(name: Seq<char>, ex: Extraction, indent: Seq<char>, result: Seq<char>) -> (Seq<char>, Seq<char>, Seq<char>) {
    let rv = all_returns(ex);
    if rv.len() >= 2 {
        (
            extracted_function_multi(name, ex.params@, rv, ex.body_text@),
            multi_signature(name, ex.params@),
            multi_call_site(name, ex.params@, rv, indent, result),
        )
    } else {
        let ret = if rv.len() == 1 {
            Some(rv[0])
        } else {
            None
        };
        (
            extracted_function(name, ex.params@, ret, ex.body_text@),
            extracted_signature(name, ex.params@, ret),
            call_site(name, ex.params@, ret, indent),
        )
    }
}

/// The file after the extraction: the new function and two blank lines
/// before the enclosing function's line, the call in place of the selected
/// lines, and runs of blank lines collapsed. (Lines before the selection keep
/// their starts, so the enclosing function's line start is taken in the
/// original text.)
pub open spec fn extracted_source(src: Seq<char>, func_row: usize, start: usize, end: usize, func_text: Seq<char>, call: Seq<char>) -> Seq<char> {
    let b = encode_utf8(src);
    let st = nl_starts(b);
    let f = st[func_row as int] as int;
    let a = st[start as int] as int;
    let e = if end + 1 < st.len() {
        st[end + 1] as int
    } else {
        b.len() as int
    };
    collapse(
        text_between(src, 0, f) + func_text + seq!['\n', '\n', '\n'] + text_between(src, f, a) + call + text_between(
            src,
            e,
            b.len() as int,
        ),
    ).0
}

/// What extracting a method produces.
pub struct ExtractPlan {
    pub signature: String,
    pub function_text: String,
    /// The call that replaces the statements (its lines end with line feeds).
    pub call_site: String,
    /// The single returned variable, if one.
    pub returned: Option<String>,
    /// The returned variables, when several.
    pub return_vars: Vec<String>,
    pub new_source: String,
}

/// What planning an analysed extraction gives: the new function's text,
/// signature and call, the returned variables, and the new source.
#[verifier::opaque]
pub open spec fn extract_plan_of(
    src: Seq<char>,
    body: SyntaxNode,
    func_row: usize,
    ex: Extraction,
    name: Seq<char>,
    start: usize,
    end: usize,
    r: ExtractPlan,
) -> bool {

        let indent = indent_of(nth_line(src, start as int));
        let rv = all_returns(ex);
        let (ft, sig, call) = extraction_texts(name, ex, indent, result_name(idents_of(body, src)));
        &&& r.function_text@ == ft
        &&& r.signature@ == sig
        &&& r.call_site@ == call
        &&& opt_view(r.returned) == (if rv.len() == 1 {
            Some(rv[0].name@)
        } else {
            None
        })
        &&& crate::refactor::inline_method::string_texts(r.return_vars@) == (if rv.len() >= 2 {
            cap_names(rv)
        } else {
            Seq::empty()
        })
        &&& r.new_source@ == extracted_source(src, func_row, start, end, ft, call)
}

/// The extracted function and call for an analysed selection of the lines
/// `start..=end` (0-based) of the function that starts on `func_row`.
#[verifier::rlimit(80)]
pub fn plan_extract_method(
    source: &str,
    body: &SyntaxNode,
    func_row: usize,
    ex: &Extraction,
    name: &str,
    start: usize,
    end: usize,
) -> (r: ExtractPlan)
    requires
        tree_ok(source@, *body),
        reindent_ok(ex.body_text@),
        func_row <= start <= end,
        start < nl_starts(encode_utf8(source@)).len(),
    ensures
        ({
            let indent = indent_of(nth_line(source@, start as int));
            let rv = all_returns(*ex);
            let (ft, sig, call) = extraction_texts(name@, *ex, indent, result_name(idents_of(*body, source@)));
            &&& r.function_text@ == ft
            &&& r.signature@ == sig
            &&& r.call_site@ == call
            &&& opt_view(r.returned) == (if rv.len() == 1 {
                Some(rv[0].name@)
            } else {
                None
            })
            &&& crate::refactor::inline_method::string_texts(r.return_vars@) == (if rv.len() >= 2 {
                cap_names(rv)
            } else {
                Seq::empty()
            })
            &&& r.new_source@ == extracted_source(source@, func_row, start, end, ft, call)
        }),
{
    let rv = &ex.return_vars;
    let indent = get_indent(source, start);
    let (function_text, signature, call_site, returned, return_vars) = if rv.len() >= 2 {
        let result = pick_result_name(source, body);
        let (ft, fs) = generate_extracted_function_multi_return(name, ex.params.as_slice(), rv.as_slice(), ex.body_text.as_str());
        let cl = generate_call_site_multi_return(name, ex.params.as_slice(), rv.as_slice(), indent.as_str(), result.as_str());
        let mut names: Vec<String> = Vec::new();
        let mut k: usize = 0;
        while k < rv.len()
            invariant
                k <= rv@.len(),
                crate::refactor::inline_method::string_texts(names@) == cap_names(rv@).take(k as int),
            decreases rv@.len() - k,
        {
            let ghost prev = crate::refactor::inline_method::string_texts(names@);
            names.push(String::from_str(rv[k].name.as_str()));
            assert(crate::refactor::inline_method::string_texts(names@) =~= prev.push(rv@[k as int].name@));
            assert(cap_names(rv@).take(k + 1) =~= cap_names(rv@).take(k as int).push(rv@[k as int].name@));
            k += 1;
        }
        assert(cap_names(rv@).take(k as int) =~= cap_names(rv@));
        (ft, fs, cl, None, names)
    } else {
        let ret: Option<&CapturedVar> = if rv.len() == 1 { Some(&rv[0]) } else { None };
        let (ft, fs) = generate_extracted_function(name, ex.params.as_slice(), ret, ex.body_text.as_str());
        let cl = generate_call_site(name, ex.params.as_slice(), ret, indent.as_str());
        let ret_name = match ret {
            Some(v) => Some(String::from_str(v.name.as_str())),
            None => None,
        };
        (ft, fs, cl, ret_name, Vec::new())
    };
    let new_source = splice_extracted(source, func_row, start, end, function_text.as_str(), call_site.as_str());
    ExtractPlan { signature, function_text, call_site, returned, return_vars, new_source }
}

fn splice_extracted(source: &str, func_row: usize, start: usize, end: usize, func_text: &str, call: &str) -> (r: String)
    requires
        func_row <= start <= end,
        start < nl_starts(encode_utf8(source@)).len(),
    ensures
        r@ == extracted_source(source@, func_row, start, end, func_text@, call@),
{
    let starts = crate::refactor::line_starts(source);
    let n = source.as_bytes().len();
    proof {
        let b = encode_utf8(source@);
        crate::refactor::lemma_nl_starts(b);
        crate::refactor::lemma_nl_starts_boundary(source@);
        vstd::utf8::encode_utf8_valid_utf8(source@);
        vstd::utf8::is_char_boundary_start_end_of_seq(b);
    }
    let f = starts[func_row];
    let a = starts[start];
    let e = if end < starts.len() - 1 { starts[end + 1] } else { n };
    proof {
        let b = encode_utf8(source@);
        assert(span_ok(source@, f as int, b.len() as int));
        assert(span_ok(source@, a as int, b.len() as int));
        if end < starts.len() - 1 {
            assert(span_ok(source@, e as int, b.len() as int));
        }
    }
    let p1 = crate::syntax::slice_str(source, 0, f);
    let p2 = crate::syntax::slice_str(source, f, a);
    let p3 = crate::syntax::slice_str(source, e, n);
    let mut out = String::new();
    crate::text::push_str(&mut out, p1.as_str());
    crate::text::push_str(&mut out, func_text);
    crate::text::push_str(&mut out, "\n\n\n");
    crate::text::push_str(&mut out, p2.as_str());
    crate::text::push_str(&mut out, call);
    crate::text::push_str(&mut out, p3.as_str());
    proof {
        reveal_strlit("\n\n\n");
    }
    assert(out@ =~= p1@ + func_text@ + seq!['\n', '\n', '\n'] + p2@ + call@ + p3@);
    crate::refactor::normalize_blank_lines(&mut out);
    out
}

/// Why extract-method at a range of lines cannot go ahead.
#[derive(Debug)]
pub enum ExtractAtError {
    /// No function encloses the first line.
    NoFunction,
    /// The selection cannot be extracted.
    Selection(ExtractError),
    /// The selected text cannot be re-indented, or its first line lies
    /// outside the text or before its function.
    Unplannable,
}

/// What extract-method at a range of lines plans: the analysis, the plan
/// and the warnings.
pub struct ExtractMethodPlan {
    pub extraction: Extraction,
    pub plan: ExtractPlan,
    pub warnings: Vec<String>,
}

/// Positions as integers.
pub open spec fn int_positions(idx: Seq<usize>) -> Seq<int> {
    idx.map_values(|i: usize| i as int)
}

/// What extract-method gives for the 0-based lines `s..=e` of a text whose
/// tree is `root`, `chain` being the nodes at the start of line `s`.
pub open spec fn extract_at_outcome(
    src: Seq<char>,
    root: SyntaxNode,
    chain: Seq<SyntaxNode>,
    s: usize,
    e: usize,
    name: Seq<char>,
    r: Result<ExtractMethodPlan, ExtractAtError>,
) -> bool {
    match crate::refactor::introduce_parameter::enclosing_node(chain) {
        None => r matches Err(ExtractAtError::NoFunction),
        Some(f) => extract_in_outcome(src, root, f, s, e, name, r),
    }
}

/// What extract-method gives for the 0-based lines `s..=e` inside the
/// function `f` of a text whose tree is `root`.
pub open spec fn extract_in_outcome(
    src: Seq<char>,
    root: SyntaxNode,
    f: SyntaxNode,
    s: usize,
    e: usize,
    name: Seq<char>,
    r: Result<ExtractMethodPlan, ExtractAtError>,
) -> bool {
    match extract_check(f, s, e) {
        Err(m) => r matches Err(ExtractAtError::Selection(x)) && extract_error_message(x) == m,
        Ok((b, ix)) => checked_outcome(src, root, f, b, ix, s, e, name, r),
    }
}

/// What extract-method gives once the check has selected the statements
/// `ix` of the body `b` of the function `f`.
#[verifier::opaque]
pub open spec fn checked_outcome(
    src: Seq<char>,
    root: SyntaxNode,
    f: SyntaxNode,
    b: SyntaxNode,
    ix: Seq<int>,
    s: usize,
    e: usize,
    name: Seq<char>,
    r: Result<ExtractMethodPlan, ExtractAtError>,
) -> bool {
    let plannable = |ex: Extraction| reindent_ok(ex.body_text@) && s < nl_starts(encode_utf8(src)).len() && f.start_row <= s;
    match r {
        Ok(p) => exists|idx: Seq<usize>|
            int_positions(idx) == ix && #[trigger] analysis_of(f, b, idx, src, p.extraction) && plannable(p.extraction)
                && extract_plan_of(src, b, f.start_row, p.extraction, name, s, e, p.plan)
                && crate::refactor::inline_method::string_texts(p.warnings@) == extraction_warnings_spec(
                name,
                crate::refactor::collision::scope_collision(name, root, src, Some(f), s),
                awaits_in(stmts_at(b, idx)),
            ),
        Err(ExtractAtError::Unplannable) => exists|idx: Seq<usize>, ex: Extraction|
            int_positions(idx) == ix && #[trigger] analysis_of(f, b, idx, src, ex) && !plannable(ex),
        Err(_) => false,
    }
}

proof fn lemma_in_range_sorted(cs: Seq<SyntaxNode>, a: usize, b: usize, k: int)
    ensures
        in_range(cs, a, b, k) matches Ok(v) ==> (forall|j: int| 0 <= j < v.len() ==> 0 <= #[trigger] v[j] < k) && (
        forall|j: int, l: int| 0 <= j < l < v.len() ==> #[trigger] v[j] < #[trigger] v[l]),
    decreases k,
{
    if 0 < k <= cs.len() {
        lemma_in_range_sorted(cs, a, b, k - 1);
    }
}

/// The positions that the check selects are in increasing order.
proof fn lemma_checked_sorted(f: SyntaxNode, s: usize, e: usize, idx: Seq<usize>)
    requires
        extract_check(f, s, e) matches Ok((b, ix)) && ix == int_positions(idx),
    ensures
        forall|j: int, k: int| 0 <= j < k < idx.len() ==> #[trigger] idx[j] < #[trigger] idx[k],
{
    let b = field_child(f, "body"@)->0;
    lemma_in_range_sorted(b.children@, s, e, b.children@.len() as int);
    assert forall|j: int, k: int| 0 <= j < k < idx.len() implies #[trigger] idx[j] < #[trigger] idx[k] by {
        assert(int_positions(idx)[j] == idx[j] as int);
        assert(int_positions(idx)[k] == idx[k] as int);
    }
}

/// Analyse a selection: see `analysis_of`.
fn analysis_for(func: &SyntaxNode, body: &SyntaxNode, idx: &Vec<usize>, source: &str) -> (r: Extraction)
    requires
        tree_ok(source@, *func),
        tree_ok(source@, *body),
        well_nested(*body),
        idx@.len() > 0,
        forall|j: int| 0 <= j < idx@.len() ==> #[trigger] idx@[j] < body.children@.len(),
        forall|j: int, k: int| 0 <= j < k < idx@.len() ==> #[trigger] idx@[j] < #[trigger] idx@[k],
    ensures
        analysis_of(*func, *body, idx@, source@, r),
        r.body_text@ == selection_text(source@, stmts_at(*body, idx@)[0], stmts_at(*body, idx@).last()),
{
    let r = analyze_extraction(func, body, idx, source);
    assert(analysis_of(*func, *body, idx@, source@, r)) by {
        reveal(analysis_of);
    }
    r
}

/// Plan an analysed extraction: see `extract_plan_of`.
fn plan_for(source: &str, body: &SyntaxNode, func_row: usize, ex: &Extraction, name: &str, start: usize, end: usize) -> (r: ExtractPlan)
    requires
        tree_ok(source@, *body),
        reindent_ok(ex.body_text@),
        func_row <= start <= end,
        start < nl_starts(encode_utf8(source@)).len(),
    ensures
        extract_plan_of(source@, *body, func_row, *ex, name@, start, end, r),
{
    let r = plan_extract_method(source, body, func_row, ex, name, start, end);
    assert(extract_plan_of(source@, *body, func_row, *ex, name@, start, end, r)) by {
        reveal(extract_plan_of);
    }
    r
}

#[verifier::spinoff_prover]
#[verifier::rlimit(60)]
fn extract_checked(
    source: &str,
    root: &SyntaxNode,
    f: &SyntaxNode,
    b: &SyntaxNode,
    idx: &Vec<usize>,
    s: usize,
    e: usize,
    name: &str,
) -> (r: Result<ExtractMethodPlan, ExtractAtError>)
    requires
        s <= e,
        tree_ok(source@, *root),
        tree_ok(source@, *f),
        tree_ok(source@, *b),
        well_nested(*b),
        idx@.len() > 0,
        forall|j: int| 0 <= j < idx@.len() ==> #[trigger] idx@[j] < b.children@.len(),
        forall|j: int, k: int| 0 <= j < k < idx@.len() ==> #[trigger] idx@[j] < #[trigger] idx@[k],
    ensures
        checked_outcome(source@, *root, *f, *b, int_positions(idx@), s, e, name@, r),
{
    let warnings = extraction_warnings(root, source, f, s, name, b, idx.as_slice());
    let ex = analysis_for(f, b, idx, source);
    if !crate::refactor::can_re_indent(ex.body_text.as_str()) || s >= crate::refactor::line_starts(source).len() || f.start_row > s {
        let r = Err(ExtractAtError::Unplannable);
        assert(checked_outcome(source@, *root, *f, *b, int_positions(idx@), s, e, name@, r)) by {
            reveal(checked_outcome);
        }
        return r;
    }
    let plan = plan_for(source, b, f.start_row, &ex, name, s, e);
    let ghost w = warnings@;
    let r = Ok(ExtractMethodPlan { extraction: ex, plan, warnings });
    assert(checked_outcome(source@, *root, *f, *b, int_positions(idx@), s, e, name@, r)) by {
        reveal(checked_outcome);
        let p = r->Ok_0;
        assert(p.extraction == ex && p.plan == plan && p.warnings@ == w);
        assert(analysis_of(*f, *b, idx@, source@, p.extraction));
        assert(reindent_ok(p.extraction.body_text@) && s < nl_starts(encode_utf8(source@)).len() && f.start_row <= s);
    }
    r
}

fn extract_in_function(source: &str, root: &SyntaxNode, f: &SyntaxNode, s: usize, e: usize, name: &str) -> (r: Result<ExtractMethodPlan, ExtractAtError>)
    requires
        s <= e,
        tree_ok(source@, *root),
        tree_ok(source@, *f),
        well_nested(*f),
    ensures
        extract_in_outcome(source@, *root, *f, s, e, name@, r),
{
    let (b, idx) = match check_extraction(f, s, e) {
        Ok(x) => x,
        Err(err) => {
            return Err(ExtractAtError::Selection(err));
        },
    };
    proof {
        let j = choose|j: int| 0 <= j < f.children@.len() && f.children@[j] == *b;
        assert(tree_ok(source@, f.children@[j]));
        assert(well_nested(f.children@[j]));
        assert(int_positions(idx@) =~= idx@.map_values(|i: usize| i as int));
        lemma_checked_sorted(*f, s, e, idx@);
    }
    extract_checked(source, root, f, b, &idx, s, e, name)
}

/// Plan extract-method for the 1-based lines `start_line..=end_line` of a
/// source text, parsing it first: `None` when the parser gives no tree, or
/// no chain of nodes at the start of the first line, that fits the text.
#[verifier::spinoff_prover]
#[verifier::rlimit(80)]
pub fn plan_extract_method_at(source: &str, start_line: usize, end_line: usize, name: &str) -> (r: Option<Result<ExtractMethodPlan, ExtractAtError>>)
    requires
        1 <= start_line <= end_line,
    ensures
        r is None <==> (fitting_tree(source@) is None || chain_at(
            source@,
            (start_line - 1) as usize,
            0,
            (start_line - 1) as usize,
            0,
        ) is None),
        r matches Some(x) ==> chain_at(source@, (start_line - 1) as usize, 0, (start_line - 1) as usize, 0) matches Some(c)
            && extract_at_outcome(
            source@,
            fitting_tree(source@)->0,
            c,
            (start_line - 1) as usize,
            (end_line - 1) as usize,
            name@,
            x,
        ),
{
    let root = match parse_fitting(source) {
        Some(t) => t,
        None => {
            return None;
        },
    };
    let s = start_line - 1;
    let e = end_line - 1;
    let chain = match nodes_at(source, s, 0, s, 0) {
        Some(c) => c,
        None => {
            return None;
        },
    };
    let fi = match crate::refactor::introduce_parameter::enclosing_function(chain.as_slice()) {
        Some(i) => i,
        None => {
            return Some(Err(ExtractAtError::NoFunction));
        },
    };
    let f = &chain[fi];
    assert(crate::parse::fits(source@, chain@[fi as int]));
    Some(extract_in_function(source, &root, f, s, e, name))
}

} // verus!
