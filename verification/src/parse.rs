//! Parsing GDScript with tree-sitter into the library's syntax tree, and
//! checking that a tree fits the text it was parsed from.
use vstd::prelude::*;
use vstd::string::StringSliceAdditionalSpecFns;
use vstd::utf8::encode_utf8;

use crate::edits::span_is_ok;
use crate::refactor::delete_symbol::rows_within;
use crate::refactor::nl_starts;
use crate::syntax::{SyntaxNode, kind_is, tree_ok, well_nested};

verus! {

#[verifier::external_type_specification]
#[verifier::external_body]
pub struct ExTsNode<'tree>(tree_sitter::Node<'tree>);

/// The tree that tree-sitter's GDScript grammar gives for a source text.
pub uninterp spec fn gdscript_tree(source: Seq<char>) -> Option<SyntaxNode>;

/// The nodes that tree-sitter's smallest node spanning the 0-based points
/// `(row, col)..(end_row, end_col)` and its ancestors are, innermost first.
pub uninterp spec fn gdscript_chain(source: Seq<char>, row: usize, col: usize, end_row: usize, end_col: usize) -> Seq<SyntaxNode>;

/// A tree-sitter node and its subtree as the library's nodes, each child
/// with the field it hangs under (called by the parsing wrappers only).
#[verifier::external_body]
fn syntax_of(node: tree_sitter::Node, field: Option<&str>) -> SyntaxNode {
    let mut cursor = node.walk();
    let children = node.children(&mut cursor).enumerate()
        .map(|(i, c)| syntax_of(c, node.field_name_for_child(i as u32))).collect();
    let (s, e) = (node.start_position(), node.end_position());
    SyntaxNode { kind: node.kind().to_string(), is_named: node.is_named(), field: field.map(|f| f.to_string()),
        start_byte: node.start_byte(), end_byte: node.end_byte(), start_row: s.row, start_column: s.column,
        end_row: e.row, end_column: e.column, children }
}

/// `tree_sitter::Parser::parse` with the GDScript grammar
/// (`tree_sitter_gdscript::LANGUAGE`), the root node converted node for node.
/// Claimed: the result is a function of the source alone (`gdscript_tree`);
/// nothing is claimed of how the tree relates to the text (see `tree_fits`).
#[verifier::external_body]
pub fn parse_gdscript(source: &str) -> (r: Option<SyntaxNode>)
    ensures
        r == gdscript_tree(source@),
{
    let mut parser = tree_sitter::Parser::new();
    parser.set_language(&tree_sitter_gdscript::LANGUAGE.into()).ok()?;
    let tree = parser.parse(source, None)?;
    Some(syntax_of(tree.root_node(), None))
}

/// `tree_sitter::Node::descendant_for_point_range` on the parsed source,
/// then `parent` up to the root, each node converted with its subtree; the
/// field each chain node hangs under in its parent is left unset (its
/// children keep theirs). Claimed: the result is a function of its
/// arguments alone (`gdscript_chain`); nothing is claimed of how the nodes
/// relate to the text (see `nodes_at`).
#[verifier::external_body]
pub fn gdscript_nodes_at(source: &str, row: usize, col: usize, end_row: usize, end_col: usize) -> (r: Vec<SyntaxNode>)
    ensures
        r@ == gdscript_chain(source@, row, col, end_row, end_col),
{
    let mut parser = tree_sitter::Parser::new();
    if parser.set_language(&tree_sitter_gdscript::LANGUAGE.into()).is_err() { return Vec::new(); }
    let Some(tree) = parser.parse(source, None) else { return Vec::new() };
    let (a, b) = (tree_sitter::Point::new(row, col), tree_sitter::Point::new(end_row, end_col));
    let mut cur = tree.root_node().descendant_for_point_range(a, b);
    let mut out = Vec::new();
    while let Some(n) = cur { out.push(syntax_of(n, None)); cur = n.parent(); }
    out
}

/// The tree covers ranges of the text on character boundaries, starts every
/// node on a line the text has, and nests its nodes.
pub open spec fn fits(src: Seq<char>, root: SyntaxNode) -> bool {
    tree_ok(src, root) && rows_within(src, root) && well_nested(root)
}

fn node_fits(source: &str, starts: &Vec<usize>, n: &SyntaxNode) -> (r: bool)
    requires
        starts@ == nl_starts(encode_utf8(source@)),
    ensures
        r == fits(source@, *n),
    decreases n,
{
    let ghost src = source@;
    if !span_is_ok(source, n.start_byte, n.end_byte) {
        return false;
    }
    if n.start_row >= starts.len() || starts[n.start_row] > n.start_byte {
        return false;
    }
    if n.start_byte > n.end_byte {
        return false;
    }
    if (kind_is(n, "identifier") || kind_is(n, "name")) && n.children.len() > 0 {
        return false;
    }
    let mut i: usize = 0;
    while i < n.children.len()
        invariant
            i <= n.children@.len(),
            starts@ == nl_starts(encode_utf8(source@)),
            src == source@,
            n.start_byte <= n.end_byte,
            forall|j: int| 0 <= j < i ==> fits(src, #[trigger] n.children@[j]),
            forall|j: int|
                0 <= j < i ==> n.start_byte <= (#[trigger] n.children@[j]).start_byte
                    && n.children@[j].end_byte <= n.end_byte,
            forall|j: int, k: int|
                #![trigger n.children@[j], n.children@[k]]
                0 <= j < k < i ==> n.children@[j].end_byte <= n.children@[k].start_byte,
            i > 0 ==> forall|j: int| 0 <= j < i ==> #[trigger] n.children@[j].end_byte <= n.children@[i - 1].end_byte,
        decreases n.children@.len() - i,
    {
        let c = &n.children[i];
        if !node_fits(source, starts, c) {
            assert(!fits(src, n.children@[i as int]));
            assert(!fits(src, *n));
            return false;
        }
        if c.start_byte < n.start_byte || c.end_byte > n.end_byte {
            return false;
        }
        if i > 0 && n.children[i - 1].end_byte > c.start_byte {
            return false;
        }
        assert(well_nested(*c));
        i += 1;
    }
    true
}

/// Whether a tree fits the text: see `fits`.
pub fn tree_fits(source: &str, root: &SyntaxNode) -> (r: bool)
    ensures
        r == fits(source@, *root),
{
    let starts = crate::refactor::line_starts(source);
    node_fits(source, &starts, root)
}

/// The tree of a source text, when the parser gives one that fits the text.
pub open spec fn fitting_tree(src: Seq<char>) -> Option<SyntaxNode> {
    match gdscript_tree(src) {
        Some(t) => if fits(src, t) {
            Some(t)
        } else {
            None
        },
        None => None,
    }
}

/// Parse a source text and keep the tree when it fits the text.
pub fn parse_fitting(source: &str) -> (r: Option<SyntaxNode>)
    ensures
        r == fitting_tree(source@),
        r matches Some(t) ==> fits(source@, t),
{
    match parse_gdscript(source) {
        Some(t) => if tree_fits(source, &t) {
            Some(t)
        } else {
            None
        },
        None => None,
    }
}

/// The chain of nodes at a range of points, innermost first, when the
/// parser gives a chain that is not empty and whose nodes all fit the text.
pub open spec fn chain_at(src: Seq<char>, row: usize, col: usize, end_row: usize, end_col: usize) -> Option<Seq<SyntaxNode>> {
    let c = gdscript_chain(src, row, col, end_row, end_col);
    if c.len() > 0 && forall|i: int| 0 <= i < c.len() ==> fits(src, #[trigger] c[i]) {
        Some(c)
    } else {
        None
    }
}

/// The chain of nodes at a range of 0-based points: see `chain_at`.
pub fn nodes_at(source: &str, row: usize, col: usize, end_row: usize, end_col: usize) -> (r: Option<Vec<SyntaxNode>>)
    ensures
        match r {
            Some(v) => chain_at(source@, row, col, end_row, end_col) == Some(v@),
            None => chain_at(source@, row, col, end_row, end_col) is None,
        },
{
    let v = gdscript_nodes_at(source, row, col, end_row, end_col);
    if v.len() == 0 {
        return None;
    }
    let mut i: usize = 0;
    while i < v.len()
        invariant
            i <= v@.len(),
            v@.len() > 0,
            v@ == gdscript_chain(source@, row, col, end_row, end_col),
            forall|j: int| 0 <= j < i ==> fits(source@, #[trigger] v@[j]),
        decreases v@.len() - i,
    {
        if !tree_fits(source, &v[i]) {
            assert(!fits(source@, v@[i as int]));
            return None;
        }
        i += 1;
    }
    Some(v)
}

} // verus!
