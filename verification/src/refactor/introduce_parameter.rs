//! Introduce-parameter: turn an expression in a function into a parameter
//! whose default value is that expression.
use vstd::prelude::*;

use crate::refactor::{decl_name, str_eq};
use crate::syntax::{
    SyntaxNode, field_child, first_where, kind_is, lemma_first_where, lemma_first_where_none, node_text, replace_span,
    span_replaced, text_of, tree_ok,
};
use crate::text::{chars_of, concat_strs, concat_views, decimal, decimal_string, string_of, trim, trimmed};

use crate::parse::{chain_at, nodes_at};

verus! {

/// What an introduce-parameter run reports.
pub struct IntroduceParameterOutput {
    pub parameter: String,
    pub expression: String,
    pub function: String,
    pub file: String,
    pub applied: bool,
}

/// The node kinds accepted as the expression to turn into a parameter.
pub open spec fn param_expr_kind(k: Seq<char>) -> bool {
    ||| k == "binary_operator"@
    ||| k == "unary_operator"@
    ||| k == "call"@
    ||| k == "attribute"@
    ||| k == "subscript"@
    ||| k == "identifier"@
    ||| k == "string"@
    ||| k == "integer"@
    ||| k == "float"@
    ||| k == "true"@
    ||| k == "false"@
    ||| k == "null"@
    ||| k == "ternary_expression"@
    ||| k == "parenthesized_expression"@
    ||| k == "array"@
    ||| k == "dictionary"@
    ||| k == "await_expression"@
}

/// Whether a node kind is accepted as the expression to extract.
pub fn is_param_expression_kind(k: &str) -> (r: bool)
    ensures
        r == param_expr_kind(k@),
{
    str_eq(k, "binary_operator") || str_eq(k, "unary_operator") || str_eq(k, "call") || str_eq(k, "attribute")
        || str_eq(k, "subscript") || str_eq(k, "identifier") || str_eq(k, "string") || str_eq(k, "integer")
        || str_eq(k, "float") || str_eq(k, "true") || str_eq(k, "false") || str_eq(k, "null") || str_eq(
        k,
        "ternary_expression",
    ) || str_eq(k, "parenthesized_expression") || str_eq(k, "array") || str_eq(k, "dictionary") || str_eq(
        k,
        "await_expression",
    )
}

/// The first expression among the nodes that hold the selection, innermost first.
pub open spec fn expression_index(chain: Seq<SyntaxNode>) -> Option<int> {
    first_where(chain, |n: SyntaxNode| param_expr_kind(n.kind@))
}

/// Find the expression at the selection, given the nodes that contain the
/// selection from the innermost outwards: the first expression node.
pub fn find_expression_at(chain: &[SyntaxNode]) -> (r: Option<usize>)
    ensures
        match r {
            Some(i) => i < chain@.len() && expression_index(chain@) == Some(i as int),
            None => expression_index(chain@) is None,
        },
{
    let ghost p = |n: SyntaxNode| param_expr_kind(n.kind@);
    let mut i: usize = 0;
    while i < chain.len()
        invariant
            i <= chain@.len(),
            p == (|n: SyntaxNode| param_expr_kind(n.kind@)),
            forall|j: int| 0 <= j < i ==> !p(#[trigger] chain@[j]),
        decreases chain@.len() - i,
    {
        if is_param_expression_kind(chain[i].kind.as_str()) {
            proof {
                lemma_first_where(chain@, p, i as int);
            }
            return Some(i);
        }
        i += 1;
    }
    proof {
        lemma_first_where_none(chain@, p);
    }
    None
}

/// A function or constructor definition.
pub open spec fn is_function_node(n: SyntaxNode) -> bool {
    n.kind@ == "function_definition"@ || n.kind@ == "constructor_definition"@
}

/// The innermost function among the nodes that hold a point.
pub open spec fn function_index(chain: Seq<SyntaxNode>) -> Option<int> {
    first_where(chain, |n: SyntaxNode| is_function_node(n))
}

/// The function that encloses a point, from the chain of nodes that contain it.
pub open spec fn enclosing_node(chain: Seq<SyntaxNode>) -> Option<SyntaxNode> {
    match function_index(chain) {
        Some(i) => Some(chain[i]),
        None => None,
    }
}

/// Find the function that encloses a point, given the nodes that contain
/// the point from the innermost outwards.
pub fn enclosing_function(chain: &[SyntaxNode]) -> (r: Option<usize>)
    ensures
        match r {
            Some(i) => i < chain@.len() && function_index(chain@) == Some(i as int),
            None => function_index(chain@) is None,
        },
{
    let ghost p = |n: SyntaxNode| is_function_node(n);
    let mut i: usize = 0;
    while i < chain.len()
        invariant
            i <= chain@.len(),
            p == (|n: SyntaxNode| is_function_node(n)),
            forall|j: int| 0 <= j < i ==> !p(#[trigger] chain@[j]),
        decreases chain@.len() - i,
    {
        if kind_is(&chain[i], "function_definition") || kind_is(&chain[i], "constructor_definition") {
            proof {
                lemma_first_where(chain@, p, i as int);
            }
            return Some(i);
        }
        i += 1;
    }
    proof {
        lemma_first_where_none(chain@, p);
    }
    None
}

/// The name a function goes by: `_init` for a constructor, else its name
/// (or `unknown` where it has none).
pub open spec fn function_label(f: SyntaxNode, src: Seq<char>) -> Seq<char> {
    if f.kind@ == "constructor_definition"@ {
        "_init"@
    } else {
        match field_child(f, "name"@) {
            Some(n) => text_of(src, n),
            None => "unknown"@,
        }
    }
}

/// The name of a function node.
pub fn function_name_of(f: &SyntaxNode, source: &str) -> (r: String)
    requires
        tree_ok(source@, *f),
    ensures
        r@ == function_label(*f, source@),
{
    if kind_is(f, "constructor_definition") {
        return String::from_str("_init");
    }
    match crate::syntax::field_child_index(f, "name") {
        Some(i) => {
            assert(tree_ok(source@, f.children@[i as int]));
            node_text(&f.children[i], source)
        },
        None => String::from_str("unknown"),
    }
}

/// The parameter's declaration: `name: Type = default`, or `name = default`
/// when no type is known.
pub open spec fn parameter_text(name: Seq<char>, ty: Option<Seq<char>>, default: Seq<char>) -> Seq<char> {
    match ty {
        Some(t) => name + ": "@ + t + " = "@ + default,
        None => name + " = "@ + default,
    }
}

/// The type given for the parameter: an explicit one, else the inferred one.
pub open spec fn chosen_type(hint: Option<&str>, inferred: Option<&str>) -> Option<Seq<char>> {
    match hint {
        Some(t) => Some(t@),
        None => match inferred {
            Some(t) => Some(t@),
            None => None,
        },
    }
}

/// Build the parameter's declaration.
pub fn build_parameter_text(name: &str, ty: Option<&str>, default: &str) -> (r: String)
    ensures
        r@ == parameter_text(
            name@,
            match ty {
                Some(t) => Some(t@),
                None => None,
            },
            default@,
        ),
{
    proof {
        reveal_with_fuel(concat_views, 6);
    }
    match ty {
        Some(t) => concat_strs(&[name, ": ", t, " = ", default]),
        None => concat_strs(&[name, " = ", default]),
    }
}

/// What introducing the parameter reports, and the source with the
/// expression replaced by the parameter's name.
pub struct ParameterPlan {
    pub parameter: String,
    pub expression: String,
    pub function: String,
    /// The source with the expression replaced by the parameter's name.
    pub replaced_source: String,
}

/// Why no parameter can be introduced at the selection, if that is so.
pub open spec fn parameter_error(chain: Seq<SyntaxNode>, line: usize, column: usize, end_column: usize) -> Option<Seq<char>> {
    if expression_index(chain) is None {
        Some(
            "no expression found at "@ + decimal(line as nat) + ":"@ + decimal(column as nat) + "-"@ + decimal(
                end_column as nat,
            ),
        )
    } else if function_index(chain) is None {
        Some("no enclosing function at line "@ + decimal(line as nat))
    } else {
        None
    }
}

fn no_expression_error(line: usize, column: usize, end_column: usize) -> (r: String)
    ensures
        r@ == "no expression found at "@ + decimal(line as nat) + ":"@ + decimal(column as nat) + "-"@ + decimal(
            end_column as nat,
        ),
{
    let l = decimal_string(line);
    let c = decimal_string(column);
    let e = decimal_string(end_column);
    proof {
        reveal_with_fuel(concat_views, 7);
    }
    concat_strs(&["no expression found at ", l.as_str(), ":", c.as_str(), "-", e.as_str()])
}

/// Plan introducing a parameter `name` for the expression at a selection
/// (1-based `line`, `column`..`end_column`), given the nodes that hold the
/// selection's start from the innermost outwards. The parameter's type is
/// `type_hint` where given, else `inferred_type`.
#[verifier::rlimit(40)]
pub fn plan_introduce_parameter(
    source: &str,
    chain: &[SyntaxNode],
    line: usize,
    column: usize,
    end_column: usize,
    name: &str,
    type_hint: Option<&str>,
    inferred_type: Option<&str>,
) -> (r: Result<ParameterPlan, String>)
    requires
        forall|i: int| 0 <= i < chain@.len() ==> tree_ok(source@, #[trigger] chain@[i]),
    ensures
        match r {
            Ok(p) => parameter_error(chain@, line, column, end_column) is None && {
                let e = chain@[expression_index(chain@).unwrap()];
                let f = chain@[function_index(chain@).unwrap()];
                &&& p.expression@ == text_of(source@, e)
                &&& p.function@ == function_label(f, source@)
                &&& p.parameter@ == parameter_text(name@, chosen_type(type_hint, inferred_type), text_of(source@, e))
                &&& p.replaced_source@ == span_replaced(source@, e.start_byte as int, e.end_byte as int, name@)
            },
            Err(m) => parameter_error(chain@, line, column, end_column) == Some(m@),
        },
{
    let ei = match find_expression_at(chain) {
        Some(i) => i,
        None => return Err(no_expression_error(line, column, end_column)),
    };
    let fi = match enclosing_function(chain) {
        Some(i) => i,
        None => {
            let l = decimal_string(line);
            proof {
                reveal_with_fuel(concat_views, 3);
            }
            return Err(concat_strs(&["no enclosing function at line ", l.as_str()]));
        },
    };
    let e = &chain[ei];
    assert(tree_ok(source@, *e));
    assert(tree_ok(source@, chain@[fi as int]));
    let expr_text = node_text(e, source);
    let func_name = function_name_of(&chain[fi], source);
    let ty = match type_hint {
        Some(t) => Some(t),
        None => inferred_type,
    };
    let parameter = build_parameter_text(name, ty, expr_text.as_str());
    let replaced_source = replace_span(source, e.start_byte, e.end_byte, name);
    Ok(ParameterPlan { parameter, expression: expr_text, function: func_name, replaced_source })
}

// ── Adding the parameter to the signature ──────────────────────────────────

/// A parameter list's text whose first and last characters are one byte each
/// (a `(` and a `)`), so that what lies between them can be cut out.
pub open spec fn bracketed(t: Seq<char>) -> bool {
    &&& t.len() >= 2
    &&& (t[0] as u32) < 128
    &&& (t.last() as u32) < 128
}

/// The parameter list with `p` added at its end.
pub open spec fn params_with(t: Seq<char>, p: Seq<char>) -> Seq<char> {
    let inner = trim(t.subrange(1, t.len() - 1));
    if inner.len() == 0 {
        "("@ + p + ")"@
    } else {
        "("@ + inner + ", "@ + p + ")"@
    }
}

/// Add the parameter `param` at the end of a parameter list's text.
pub fn extend_params(params: &str, param: &str) -> (r: String)
    requires
        bracketed(params@),
    ensures
        r@ == params_with(params@, param@),
{
    let cs = chars_of(params);
    let inner_chars = crate::text::slice_of(&cs, 1, cs.len() - 1);
    assert(inner_chars@ =~= params@.subrange(1, params@.len() - 1));
    let inner_v = trimmed(&inner_chars);
    let inner = string_of(&inner_v);
    proof {
        reveal_with_fuel(concat_views, 6);
    }
    if inner_v.len() == 0 {
        concat_strs(&["(", param, ")"])
    } else {
        concat_strs(&["(", inner.as_str(), ", ", param, ")"])
    }
}

/// The top-level function (or constructor) that goes by `name`.
pub open spec fn function_named(cs: Seq<SyntaxNode>, src: Seq<char>, name: Seq<char>) -> Option<int> {
    first_where(cs, |c: SyntaxNode| is_function_node(c) && decl_name(c, src) == Some(name))
}

/// Adding a parameter to the function `name` can cut its parameter list.
pub open spec fn params_cuttable(src: Seq<char>, root: SyntaxNode, name: Seq<char>) -> bool {
    match function_named(root.children@, src, name) {
        Some(i) => match field_child(root.children@[i], "parameters"@) {
            Some(ps) => bracketed(text_of(src, ps)),
            None => true,
        },
        None => true,
    }
}

/// The source with the parameter added to the function `name`'s parameter
/// list (unchanged where it has none), or the message when the function is gone.
pub open spec fn with_parameter(src: Seq<char>, root: SyntaxNode, name: Seq<char>, p: Seq<char>) -> Result<Seq<char>, Seq<char>> {
    match function_named(root.children@, src, name) {
        None => Err("cannot find function after edit"@),
        Some(i) => match field_child(root.children@[i], "parameters"@) {
            None => Ok(src),
            Some(ps) => Ok(
                span_replaced(src, ps.start_byte as int, ps.end_byte as int, params_with(text_of(src, ps), p)),
            ),
        },
    }
}

fn find_function<'a>(root: &'a SyntaxNode, source: &str, name: &str) -> (r: Option<&'a SyntaxNode>)
    requires
        tree_ok(source@, *root),
    ensures
        match r {
            Some(f) => exists|i: int|
                0 <= i < root.children@.len() && function_named(root.children@, source@, name@) == Some(i)
                    && root.children@[i] == *f,
            None => function_named(root.children@, source@, name@) is None,
        },
{
    let ghost p = |c: SyntaxNode| is_function_node(c) && decl_name(c, source@) == Some(name@);
    let mut i: usize = 0;
    while i < root.children.len()
        invariant
            i <= root.children@.len(),
            tree_ok(source@, *root),
            p == (|c: SyntaxNode| is_function_node(c) && decl_name(c, source@) == Some(name@)),
            forall|j: int| 0 <= j < i ==> !p(#[trigger] root.children@[j]),
        decreases root.children@.len() - i,
    {
        let c = &root.children[i];
        assert(tree_ok(source@, *c));
        if kind_is(c, "function_definition") || kind_is(c, "constructor_definition") {
            match crate::refactor::get_declaration_name(c, source) {
                Some(d) => {
                    if str_eq(d.as_str(), name) {
                        proof {
                            lemma_first_where(root.children@, p, i as int);
                        }
                        return Some(c);
                    }
                },
                None => {},
            }
        }
        i += 1;
    }
    proof {
        lemma_first_where_none(root.children@, p);
    }
    None
}

/// Whether the parameter list of the function `name` can be cut (adding a
/// parameter panics where it cannot).
pub fn can_add_parameter(source: &str, root: &SyntaxNode, name: &str) -> (r: bool)
    requires
        tree_ok(source@, *root),
    ensures
        r == params_cuttable(source@, *root, name@),
{
    match find_function(root, source, name) {
        None => true,
        Some(f) => {
            assert(tree_ok(source@, *f));
            match crate::syntax::field_child_index(f, "parameters") {
                None => true,
                Some(k) => {
                    assert(tree_ok(source@, f.children@[k as int]));
                    let t = node_text(&f.children[k], source);
                    let cs = chars_of(t.as_str());
                    cs.len() >= 2 && (cs[0] as u32) < 128 && (cs[cs.len() - 1] as u32) < 128
                },
            }
        },
    }
}

/// Add the parameter `param` to the function `name` in the re-parsed source.
pub fn add_parameter(source: &str, root: &SyntaxNode, name: &str, param: &str) -> (r: Result<String, String>)
    requires
        tree_ok(source@, *root),
        params_cuttable(source@, *root, name@),
    ensures
        match r {
            Ok(s) => with_parameter(source@, *root, name@, param@) == Ok::<_, Seq<char>>(s@),
            Err(m) => with_parameter(source@, *root, name@, param@) == Err::<Seq<char>, _>(m@),
        },
{
    let f = match find_function(root, source, name) {
        Some(f) => f,
        None => return Err(String::from_str("cannot find function after edit")),
    };
    assert(tree_ok(source@, *f));
    match crate::syntax::field_child_index(f, "parameters") {
        None => Ok(String::from_str(source)),
        Some(k) => {
            let ps = &f.children[k];
            assert(tree_ok(source@, *ps));
            let t = node_text(ps, source);
            let nt = extend_params(t.as_str(), param);
            Ok(replace_span(source, ps.start_byte, ps.end_byte, nt.as_str()))
        },
    }
}

/// Plan introduce-parameter for the expression at the 1-based `line`, from
/// `column` to `end_column`, of a source text, parsing it first: `None` when
/// the parser gives no chain of nodes there that fits the text.
pub fn plan_introduce_parameter_at(
    source: &str,
    line: usize,
    column: usize,
    end_column: usize,
    name: &str,
    type_hint: Option<&str>,
    inferred_type: Option<&str>,
) -> (r: Option<Result<ParameterPlan, String>>)
    requires
        line >= 1,
        column >= 1,
        end_column >= 1,
    ensures
        r is None <==> chain_at(source@, (line - 1) as usize, (column - 1) as usize, (line - 1) as usize, (end_column - 1) as usize) is None,
        r matches Some(x) ==> chain_at(source@, (line - 1) as usize, (column - 1) as usize, (line - 1) as usize, (end_column - 1) as usize)
            matches Some(c) && match x {
            Ok(p) => parameter_error(c, line, column, end_column) is None && {
                let e = c[expression_index(c).unwrap()];
                let f = c[function_index(c).unwrap()];
                &&& p.expression@ == text_of(source@, e)
                &&& p.function@ == function_label(f, source@)
                &&& p.parameter@ == parameter_text(name@, chosen_type(type_hint, inferred_type), text_of(source@, e))
                &&& p.replaced_source@ == span_replaced(source@, e.start_byte as int, e.end_byte as int, name@)
            },
            Err(m) => parameter_error(c, line, column, end_column) == Some(m@),
        },
{
    let chain = match nodes_at(source, line - 1, column - 1, line - 1, end_column - 1) {
        Some(c) => c,
        None => {
            return None;
        },
    };
    assert(forall|i: int| 0 <= i < chain@.len() ==> crate::parse::fits(source@, #[trigger] chain@[i]));
    Some(plan_introduce_parameter(source, chain.as_slice(), line, column, end_column, name, type_hint, inferred_type))
}

} // verus!
