//! Convert-node-path: `$Path` to `get_node("Path")` and back.
use vstd::prelude::*;

use crate::syntax::{
    SyntaxNode, first_child_of_kind, first_where, kind_child, kind_is, lemma_first_where,
    named_child_at, named_child_count, named_children, node_text, replace_span, span_ok,
    span_replaced, text_of, tree_ok,
};
use crate::text::{chars_of, push_str, slice_of, string_of};

use crate::parse::{chain_at, nodes_at};

verus! {

/// What a convert-node-path run reports.
pub struct ConvertNodePathOutput {
    pub original: String,
    pub converted: String,
    pub direction: String,
    pub file: String,
    pub line: u32,
    pub applied: bool,
}

/// Which way a node path is converted.
#[derive(PartialEq, Eq, Structural, Clone, Copy)]
pub enum Direction {
    /// `$Path` becomes `get_node("Path")`.
    ToCall,
    /// `get_node("Path")` becomes `$Path`.
    ToDollar,
}

/// The name of a direction as reported.
pub open spec fn direction_name(d: Direction) -> Seq<char> {
    match d {
        Direction::ToCall => "to-call"@,
        Direction::ToDollar => "to-dollar"@,
    }
}

impl Direction {
    /// The name of the direction as reported.
    pub fn name(&self) -> (r: &'static str)
        ensures
            r@ == direction_name(*self),
    {
        match self {
            Direction::ToCall => "to-call",
            Direction::ToDollar => "to-dollar",
        }
    }
}

/// Why a `get_node(..)` call has no path to convert.
#[derive(PartialEq, Eq, Structural, Clone, Copy, Debug)]
pub enum NodePathError {
    NoArguments,
    NotStringLiteral,
}

impl NodePathError {
    /// The message shown to the user.
    pub fn message(&self) -> (r: &'static str)
        ensures
            r@ == match *self {
                NodePathError::NoArguments => "get_node() call has no arguments"@,
                NodePathError::NotStringLiteral => "get_node() argument is not a string literal"@,
            },
    {
        match self {
            NodePathError::NoArguments => "get_node() call has no arguments",
            NodePathError::NotStringLiteral => "get_node() argument is not a string literal",
        }
    }
}

// ── Path text ──────────────────────────────────────────────────────────────

/// `s.strip_prefix(c).unwrap_or(s)`.
pub open spec fn without_lead(s: Seq<char>, c: char) -> Seq<char> {
    if s.len() > 0 && s[0] == c {
        s.drop_first()
    } else {
        s
    }
}

/// The text inside a pair of surrounding double quotes, or the text itself
/// when it is not quoted.
pub open spec fn quotes_stripped(s: Seq<char>) -> Seq<char> {
    if s.len() >= 2 && s[0] == '"' && s.last() == '"' {
        s.subrange(1, s.len() - 1)
    } else {
        s
    }
}

/// The raw path of `$Sprite2D` or `$"Player/Sprite2D"`.
pub open spec fn dollar_path(t: Seq<char>) -> Seq<char> {
    quotes_stripped(without_lead(t, '$'))
}

/// The characters that make a path need the quoted `$"..."` form.
pub open spec fn quote_char(c: char) -> bool {
    c == '/' || c == '.' || c == '-' || c == ' ' || c == '%' || c == '@'
}

/// The path holds a character that needs the quoted form.
pub open spec fn path_needs_quotes(p: Seq<char>) -> bool {
    exists|i: int| 0 <= i < p.len() && quote_char(#[trigger] p[i])
}

fn strip_quotes(s: &[char]) -> (r: Vec<char>)
    ensures
        r@ == quotes_stripped(s@),
{
    if s.len() >= 2 && s[0] == '"' && s[s.len() - 1] == '"' {
        slice_of(s, 1, s.len() - 1)
    } else {
        slice_of(s, 0, s.len())
    }
}

/// Extract the raw path from `$Sprite2D` or `$"Player/Sprite2D"`.
pub fn extract_dollar_path(text: &str) -> (r: String)
    ensures
        r@ == dollar_path(text@),
{
    let t = chars_of(text);
    let w = if t.len() > 0 && t[0] == '$' {
        slice_of(&t, 1, t.len())
    } else {
        slice_of(&t, 0, t.len())
    };
    assert(w@ == without_lead(text@, '$'));
    let r = strip_quotes(&w);
    string_of(&r)
}

/// Whether a node path needs quoting in `$"..."` form: simple identifiers
/// like `Sprite2D` don't; paths with `/`, `.`, `-`, `%`, `@` or spaces do.
pub fn needs_quoting(path: &str) -> (r: bool)
    ensures
        r == path_needs_quotes(path@),
{
    let p = chars_of(path);
    let mut i: usize = 0;
    while i < p.len()
        invariant
            i <= p@.len(),
            p@ == path@,
            forall|j: int| 0 <= j < i ==> !quote_char(#[trigger] p@[j]),
        decreases p@.len() - i,
    {
        let c = p[i];
        if c == '/' || c == '.' || c == '-' || c == ' ' || c == '%' || c == '@' {
            assert(quote_char(p@[i as int]));
            return true;
        }
        i += 1;
    }
    false
}

// ── get_node calls ─────────────────────────────────────────────────────────

/// A `call` node is `get_node("some_string_literal")`: its first child is the
/// identifier `get_node`, and its first `arguments` child has exactly one
/// named child, a string.
pub open spec fn get_node_call(n: SyntaxNode, src: Seq<char>) -> bool {
    &&& n.children@.len() > 0
    &&& n.children@[0].kind@ == "identifier"@
    &&& text_of(src, n.children@[0]) == "get_node"@
    &&& match kind_child(n, "arguments"@) {
        Some(i) => {
            let nc = named_children(n.children@[i].children@);
            nc.len() == 1 && nc[0].kind@ == "string"@
        },
        None => false,
    }
}

/// Check if a `call` node is `get_node("some_string_literal")`.
pub fn is_get_node_call(call_node: &SyntaxNode, source: &str) -> (r: bool)
    requires
        tree_ok(source@, *call_node),
    ensures
        r == get_node_call(*call_node, source@),
{
    if call_node.children.len() == 0 {
        return false;
    }
    let callee = &call_node.children[0];
    assert(tree_ok(source@, call_node.children@[0]));
    if !kind_is(callee, "identifier") {
        return false;
    }
    let t = node_text(callee, source);
    let tc = chars_of(t.as_str());
    let g = chars_of("get_node");
    if !crate::text::seq_eq(&tc, &g) {
        return false;
    }
    match first_child_of_kind(call_node, "arguments") {
        Some(i) => {
            let args = &call_node.children[i];
            if named_child_count(args) != 1 {
                return false;
            }
            match named_child_at(args, 0) {
                Some(a) => kind_is(a, "string"),
                None => false,
            }
        },
        None => false,
    }
}

/// The first named `string` child.
pub open spec fn string_arg(n: SyntaxNode) -> Option<int> {
    first_where(n.children@, |c: SyntaxNode| c.is_named && c.kind@ == "string"@)
}

/// The path a `get_node("path")` call names.
pub open spec fn get_node_arg(n: SyntaxNode, src: Seq<char>) -> Result<Seq<char>, NodePathError> {
    match kind_child(n, "arguments"@) {
        Some(i) => {
            let a = n.children@[i];
            match string_arg(a) {
                Some(j) => Ok(quotes_stripped(text_of(src, a.children@[j]))),
                None => Err(NodePathError::NotStringLiteral),
            }
        },
        None => Err(NodePathError::NoArguments),
    }
}

fn string_arg_index(node: &SyntaxNode) -> (r: Option<usize>)
    ensures
        match r {
            Some(i) => i < node.children@.len() && string_arg(*node) == Some(i as int),
            None => string_arg(*node) is None,
        },
{
    let ghost p = |c: SyntaxNode| c.is_named && c.kind@ == "string"@;
    let mut i: usize = 0;
    while i < node.children.len()
        invariant
            i <= node.children@.len(),
            p == (|c: SyntaxNode| c.is_named && c.kind@ == "string"@),
            forall|j: int| 0 <= j < i ==> !p(#[trigger] node.children@[j]),
        decreases node.children@.len() - i,
    {
        if node.children[i].is_named && kind_is(&node.children[i], "string") {
            proof {
                lemma_first_where(node.children@, p, i as int);
            }
            return Some(i);
        }
        i += 1;
    }
    proof {
        crate::syntax::lemma_first_where_none(node.children@, p);
    }
    None
}

/// Extract the string argument from a `get_node("path")` call node.
pub fn extract_get_node_arg(call_node: &SyntaxNode, source: &str) -> (r: Result<String, NodePathError>)
    requires
        tree_ok(source@, *call_node),
    ensures
        match r {
            Ok(p) => get_node_arg(*call_node, source@) == Ok::<Seq<char>, NodePathError>(p@),
            Err(e) => get_node_arg(*call_node, source@) == Err::<Seq<char>, NodePathError>(e),
        },
{
    let i = match first_child_of_kind(call_node, "arguments") {
        Some(i) => i,
        None => {
            return Err(NodePathError::NoArguments);
        },
    };
    let args = &call_node.children[i];
    assert(tree_ok(source@, *args));
    let j = match string_arg_index(args) {
        Some(j) => j,
        None => {
            return Err(NodePathError::NotStringLiteral);
        },
    };
    assert(tree_ok(source@, args.children@[j as int]));
    let raw = node_text(&args.children[j], source);
    let rc = chars_of(raw.as_str());
    let p = strip_quotes(&rc);
    Ok(string_of(&p))
}

// ── The conversion ─────────────────────────────────────────────────────────

/// The innermost of a chain of nodes (innermost first, then each parent) that
/// is a `$` path or a `get_node("..")` call, with the direction to convert it.
pub open spec fn convertible(chain: Seq<SyntaxNode>, src: Seq<char>) -> Option<(int, Direction)> {
    match first_where(
        chain,
        |n: SyntaxNode| n.kind@ == "get_node"@ || (n.kind@ == "call"@ && get_node_call(n, src)),
    ) {
        Some(i) => Some(
            (
                i,
                if chain[i].kind@ == "get_node"@ {
                    Direction::ToCall
                } else {
                    Direction::ToDollar
                },
            ),
        ),
        None => None,
    }
}

/// Walk from the deepest node at the cursor upward (`chain` holds it and then
/// each of its ancestors) to find either a `get_node` node (the `$`
/// shorthand, to be converted to a call) or a `call` node that is
/// `get_node("..")` (to be converted to `$`).
pub fn find_get_node_or_call(chain: &[SyntaxNode], source: &str) -> (r: Option<(usize, Direction)>)
    requires
        forall|i: int| 0 <= i < chain@.len() ==> tree_ok(source@, #[trigger] chain@[i]),
    ensures
        match r {
            Some((i, d)) => i < chain@.len() && convertible(chain@, source@) == Some((i as int, d)),
            None => convertible(chain@, source@) is None,
        },
{
    let ghost p = |n: SyntaxNode| n.kind@ == "get_node"@ || (n.kind@ == "call"@ && get_node_call(n, source@));
    let mut i: usize = 0;
    while i < chain.len()
        invariant
            i <= chain@.len(),
            forall|j: int| 0 <= j < chain@.len() ==> tree_ok(source@, #[trigger] chain@[j]),
            p == (|n: SyntaxNode| n.kind@ == "get_node"@ || (n.kind@ == "call"@ && get_node_call(n, source@))),
            forall|j: int| 0 <= j < i ==> !p(#[trigger] chain@[j]),
        decreases chain@.len() - i,
    {
        let n = &chain[i];
        if kind_is(n, "get_node") {
            proof {
                lemma_first_where(chain@, p, i as int);
            }
            return Some((i, Direction::ToCall));
        }
        if kind_is(n, "call") && is_get_node_call(n, source) {
            proof {
                lemma_first_where(chain@, p, i as int);
            }
            return Some((i, Direction::ToDollar));
        }
        i += 1;
    }
    proof {
        crate::syntax::lemma_first_where_none(chain@, p);
    }
    None
}

/// The converted text of a node: `get_node("path")` for a `$` path; `$path`
/// or `$"path"` (when the path needs quoting) for a `get_node("path")` call.
pub open spec fn converted_text(n: SyntaxNode, src: Seq<char>, d: Direction) -> Result<Seq<char>, NodePathError> {
    match d {
        Direction::ToCall => Ok("get_node(\""@ + dollar_path(text_of(src, n)) + "\")"@),
        Direction::ToDollar => match get_node_arg(n, src) {
            Ok(p) => Ok(
                if path_needs_quotes(p) {
                    "$\""@ + p + "\""@
                } else {
                    "$"@ + p
                },
            ),
            Err(e) => Err(e),
        },
    }
}

/// A planned node-path conversion.
pub struct NodePathEdit {
    /// The node's text before.
    pub original: String,
    /// Its text after.
    pub converted: String,
    /// The whole source after the conversion.
    pub new_source: String,
}

/// Convert one node: its text, the replacement, and the new source.
pub fn convert_node(source: &str, node: &SyntaxNode, direction: Direction) -> (r: Result<NodePathEdit, NodePathError>)
    requires
        tree_ok(source@, *node),
    ensures
        match r {
            Ok(e) => {
                &&& converted_text(*node, source@, direction) == Ok::<Seq<char>, NodePathError>(e.converted@)
                &&& e.original@ == text_of(source@, *node)
                &&& e.new_source@ == span_replaced(source@, node.start_byte as int, node.end_byte as int, e.converted@)
            },
            Err(e) => converted_text(*node, source@, direction) == Err::<Seq<char>, NodePathError>(e),
        },
{
    let original = node_text(node, source);
    let converted = match direction {
        Direction::ToCall => {
            let path = extract_dollar_path(original.as_str());
            let mut c = String::new();
            push_str(&mut c, "get_node(\"");
            push_str(&mut c, path.as_str());
            push_str(&mut c, "\")");
            c
        },
        Direction::ToDollar => {
            let path = match extract_get_node_arg(node, source) {
                Ok(p) => p,
                Err(e) => {
                    return Err(e);
                },
            };
            let mut c = String::new();
            if needs_quoting(path.as_str()) {
                push_str(&mut c, "$\"");
                push_str(&mut c, path.as_str());
                push_str(&mut c, "\"");
            } else {
                push_str(&mut c, "$");
                push_str(&mut c, path.as_str());
            }
            c
        },
    };
    let new_source = replace_span(source, node.start_byte, node.end_byte, converted.as_str());
    Ok(NodePathEdit { original, converted, new_source })
}

/// Convert the node path at the 1-based `line` and `column` of a source
/// text, parsing it first: the direction and the edit, or why the node
/// cannot be converted; `Some(None)` when nothing there is a `$path` or a
/// `get_node()` call. `None` when the parser gives no chain of nodes at the
/// position that fits the text.
pub fn convert_node_path_at(source: &str, line: usize, column: usize) -> (r: Option<Option<(Direction, Result<NodePathEdit, NodePathError>)>>)
    requires
        line >= 1,
        column >= 1,
    ensures
        r is None <==> chain_at(source@, (line - 1) as usize, (column - 1) as usize, (line - 1) as usize, (column - 1) as usize) is None,
        r matches Some(x) ==> chain_at(source@, (line - 1) as usize, (column - 1) as usize, (line - 1) as usize, (column - 1) as usize)
            matches Some(c) && match convertible(c, source@) {
            None => x is None,
            Some((i, d)) => x matches Some((dd, res)) && dd == d && match res {
                Ok(e) => {
                    &&& converted_text(c[i], source@, d) == Ok::<Seq<char>, NodePathError>(e.converted@)
                    &&& e.original@ == text_of(source@, c[i])
                    &&& e.new_source@ == span_replaced(source@, c[i].start_byte as int, c[i].end_byte as int, e.converted@)
                },
                Err(err) => converted_text(c[i], source@, d) == Err::<Seq<char>, NodePathError>(err),
            },
        },
{
    let chain = match nodes_at(source, line - 1, column - 1, line - 1, column - 1) {
        Some(c) => c,
        None => {
            return None;
        },
    };
    assert(forall|i: int| 0 <= i < chain@.len() ==> crate::parse::fits(source@, #[trigger] chain@[i]));
    match find_get_node_or_call(chain.as_slice(), source) {
        None => Some(None),
        Some((i, d)) => Some(Some((d, convert_node(source, &chain[i], d)))),
    }
}

} // verus!
