//! Output records and helpers shared by the refactorings.
pub mod bulk_rename;
pub mod change_signature;
pub mod collision;
pub mod convert_node_path;
pub mod convert_signal;
pub mod delete_symbol;
pub mod edit;
pub mod encapsulate_field;
pub mod extract_class;
pub mod extract_method;
pub mod inline_delegate;
pub mod inline_method;
pub mod inline_variable;
pub mod introduce_parameter;
pub mod introduce_variable;
pub mod invert_if;
pub mod move_file;
pub mod move_symbol;
pub mod properties;

pub use extract_method::re_indent;
use vstd::prelude::*;
use vstd::string::StringSliceAdditionalSpecFns;

use vstd::utf8::{encode_scalar, encode_utf8, encode_utf8_valid_utf8, is_char_boundary_start_end_of_seq};

use crate::syntax::{
    SyntaxNode, child, field_child, kind_is, child_by_field_name, lemma_after_newline_boundary,
    node_text, slice_str, span_ok, text_between, text_of, tree_ok,
};
use crate::text::{trimmed, trim, 
    blank, chars_of, indent_of, is_blank, is_ws, join, join_lines, lead_ws, lead_ws_len, lines,
    lines_of, repeat, seq_eq, slice_of, string_of, lemma_lead_ws_bound, extend,
};

verus! {

// ── Output records ─────────────────────────────────────────────────────────

pub struct DeleteSymbolOutput {
    pub symbol: String,
    pub kind: String,
    pub file: String,
    pub removed_lines: LineRange,
    pub references: Vec<RefLocation>,
    pub applied: bool,
}

pub struct LineRange {
    pub start: u32,
    pub end: u32,
}

#[derive(Clone)]
pub struct RefLocation {
    pub file: String,
    pub line: u32,
    pub column: u32,
    pub end_line: u32,
    pub end_column: u32,
}

pub struct MoveSymbolOutput {
    pub symbol: String,
    pub kind: String,
    pub from: String,
    pub to: String,
    pub applied: bool,
    pub warnings: Vec<String>,
    pub preloads: Vec<PreloadRef>,
}

pub struct ExtractMethodOutput {
    pub function: String,
    pub parameters: Vec<ParameterOutput>,
    pub returns: Option<String>,
    pub return_vars: Vec<String>,
    pub call_site: String,
    pub file: String,
    pub applied: bool,
    pub warnings: Vec<String>,
}

pub struct ParameterOutput {
    pub name: String,
    pub type_hint: Option<String>,
}

pub struct PreloadRef {
    pub file: String,
    pub line: u32,
    pub path: String,
}

// ── Declaration kinds ──────────────────────────────────────────────────────

/// The user-facing name of a declaration node kind.
pub open spec fn kind_name(kind: Seq<char>) -> Seq<char> {
    if kind == "function_definition"@ || kind == "constructor_definition"@ {
        "function"@
    } else if kind == "variable_statement"@ {
        "variable"@
    } else if kind == "const_statement"@ {
        "constant"@
    } else if kind == "signal_statement"@ {
        "signal"@
    } else if kind == "enum_definition"@ {
        "enum"@
    } else if kind == "class_definition"@ {
        "class"@
    } else if kind == "class_name_statement"@ {
        "class_name"@
    } else {
        "unknown"@
    }
}

/// Text equality.
pub fn str_eq(a: &str, b: &str) -> (r: bool)
    ensures
        r == (a@ == b@),
{
    let x = chars_of(a);
    let y = chars_of(b);
    seq_eq(&x, &y)
}

/// The user-facing name of a declaration node kind.
pub fn declaration_kind_str(kind: &str) -> (r: &'static str)
    ensures
        r@ == kind_name(kind@),
{
    if str_eq(kind, "function_definition") || str_eq(kind, "constructor_definition") {
        "function"
    } else if str_eq(kind, "variable_statement") {
        "variable"
    } else if str_eq(kind, "const_statement") {
        "constant"
    } else if str_eq(kind, "signal_statement") {
        "signal"
    } else if str_eq(kind, "enum_definition") {
        "enum"
    } else if str_eq(kind, "class_definition") {
        "class"
    } else if str_eq(kind, "class_name_statement") {
        "class_name"
    } else {
        "unknown"
    }
}

// ── Line starts ────────────────────────────────────────────────────────────

/// Byte offsets at which the lines of `b` start: 0, then one past each line feed.
pub open spec fn nl_starts(b: Seq<u8>) -> Seq<usize>
    decreases b.len(),
{
    if b.len() == 0 {
        seq![0usize]
    } else if b.last() == 10u8 {
        nl_starts(b.drop_last()).push(b.len() as usize)
    } else {
        nl_starts(b.drop_last())
    }
}

/// Byte offsets of the start of each line in `source`.
pub fn line_starts(source: &str) -> (starts: Vec<usize>)
    ensures
        starts@ == nl_starts(source.spec_bytes()),
{
    let bytes = source.as_bytes();
    let mut starts: Vec<usize> = Vec::new();
    starts.push(0);
    let mut i: usize = 0;
    while i < bytes.len()
        invariant
            i <= bytes@.len(),
            bytes@ == source.spec_bytes(),
            starts@ == nl_starts(bytes@.take(i as int)),
        decreases bytes@.len() - i,
    {
        let ghost pre = bytes@.take(i as int);
        assert(bytes@.take(i + 1).drop_last() =~= pre);
        if bytes[i] == 10u8 {
            starts.push(i + 1);
        }
        i += 1;
    }
    assert(bytes@.take(i as int) =~= bytes@);
    starts
}

/// Facts about line starts: the first is 0; they increase; each lies within
/// the text and right after a line feed (or at 0).
pub proof fn lemma_nl_starts(b: Seq<u8>)
    requires
        b.len() <= usize::MAX,
    ensures
        nl_starts(b).len() >= 1,
        nl_starts(b)[0] == 0,
        forall|k: int|
            0 <= k < nl_starts(b).len() ==> #[trigger] nl_starts(b)[k] <= b.len() && (
            nl_starts(b)[k] == 0 || b[nl_starts(b)[k] - 1] == 10u8),
        forall|j: int, k: int|
            0 <= j < k < nl_starts(b).len() ==> nl_starts(b)[j] < nl_starts(b)[k],
    decreases b.len(),
{
    if b.len() > 0 {
        let p = b.drop_last();
        lemma_nl_starts(p);
        let sp = nl_starts(p);
        let st = nl_starts(b);
        assert forall|k: int| 0 <= k < sp.len() implies (sp[k] <= b.len() && (sp[k] == 0 || b[sp[k] - 1] == 10u8)) by {
            if sp[k] != 0 {
                assert(b[sp[k] - 1] == p[sp[k] - 1]);
            }
        }
        if b.last() == 10u8 {
            assert(st == sp.push(b.len() as usize));
            assert forall|k: int| 0 <= k < st.len() implies #[trigger] st[k] <= b.len() && (
            st[k] == 0 || b[st[k] - 1] == 10u8) by {
                if k < sp.len() {
                    assert(st[k] == sp[k]);
                }
            }
            assert forall|j: int, k: int| 0 <= j < k < st.len() implies st[j] < st[k] by {
                if k < sp.len() {
                    assert(st[k] == sp[k] && st[j] == sp[j]);
                } else {
                    assert(st[j] == sp[j]);
                    assert(sp[j] <= p.len());
                }
            }
        } else {
            assert(st == sp);
        }
    }
}

/// Every line start of a text starts a character.
pub proof fn lemma_nl_starts_boundary(src: Seq<char>)
    requires
        encode_utf8(src).len() <= usize::MAX,
    ensures
        forall|k: int|
            0 <= k < nl_starts(encode_utf8(src)).len() ==> span_ok(
                src,
                #[trigger] nl_starts(encode_utf8(src))[k] as int,
                encode_utf8(src).len() as int,
            ),
{
    let b = encode_utf8(src);
    encode_utf8_valid_utf8(src);
    is_char_boundary_start_end_of_seq(b);
    lemma_nl_starts(b);
    assert forall|k: int| 0 <= k < nl_starts(b).len() implies span_ok(
        src,
        #[trigger] nl_starts(b)[k] as int,
        b.len() as int,
    ) by {
        let x = nl_starts(b)[k] as int;
        if x != 0 {
            lemma_after_newline_boundary(b, x - 1);
        }
    }
}

// ── Declarations ───────────────────────────────────────────────────────────

/// The node kinds that declare a named symbol.
pub open spec fn is_decl_kind(k: Seq<char>) -> bool {
    ||| k == "function_definition"@
    ||| k == "constructor_definition"@
    ||| k == "variable_statement"@
    ||| k == "const_statement"@
    ||| k == "signal_statement"@
    ||| k == "enum_definition"@
    ||| k == "class_definition"@
    ||| k == "class_name_statement"@
}

/// Whether a node kind declares a named symbol (`DECLARATION_KINDS.contains`).
pub fn is_declaration_kind(k: &str) -> (r: bool)
    ensures
        r == is_decl_kind(k@),
{
    str_eq(k, "function_definition") || str_eq(k, "constructor_definition") || str_eq(
        k,
        "variable_statement",
    ) || str_eq(k, "const_statement") || str_eq(k, "signal_statement") || str_eq(
        k,
        "enum_definition",
    ) || str_eq(k, "class_definition") || str_eq(k, "class_name_statement")
}

/// The name a declaration node declares.
pub open spec fn decl_name(n: SyntaxNode, src: Seq<char>) -> Option<Seq<char>> {
    if n.kind@ == "constructor_definition"@ {
        Some("_init"@)
    } else if n.kind@ == "class_name_statement"@ {
        match child(n, 1) {
            Some(c) => Some(text_of(src, c)),
            None => None,
        }
    } else {
        match field_child(n, "name"@) {
            Some(c) => Some(text_of(src, c)),
            None => None,
        }
    }
}

/// The name a declaration node declares.
pub fn get_declaration_name(node: &SyntaxNode, source: &str) -> (r: Option<String>)
    requires
        tree_ok(source@, *node),
    ensures
        match r {
            Some(s) => decl_name(*node, source@) == Some(s@),
            None => decl_name(*node, source@) is None,
        },
{
    if kind_is(node, "constructor_definition") {
        return Some(String::from_str("_init"));
    }
    if kind_is(node, "class_name_statement") {
        if node.children.len() > 1 {
            assert(tree_ok(source@, node.children@[1]));
            return Some(node_text(&node.children[1], source));
        }
        return None;
    }
    match child_by_field_name(node, "name") {
        Some(c) => {
            assert(tree_ok(source@, *c));
            Some(node_text(c, source))
        },
        None => None,
    }
}

/// The first child of `parent` that declares `name`.
pub open spec fn decl_by_name_index(cs: Seq<SyntaxNode>, src: Seq<char>, name: Seq<char>) -> Option<int> {
    crate::syntax::first_where(cs, |c: SyntaxNode| is_decl_kind(c.kind@) && decl_name(c, src) == Some(name))
}

/// Find a declaration by name among the direct children of `parent`.
pub(crate) fn find_declaration_among<'a>(parent: &'a SyntaxNode, source: &str, name: &str) -> (r: Option<&'a SyntaxNode>)
    requires
        tree_ok(source@, *parent),
    ensures
        match r {
            Some(c) => exists|i: int| 0 <= i < parent.children@.len() && decl_by_name_index(parent.children@, source@, name@) == Some(i) && parent.children@[i] == *c,
            None => decl_by_name_index(parent.children@, source@, name@) is None,
        },
{
    let ghost p = |c: SyntaxNode| is_decl_kind(c.kind@) && decl_name(c, source@) == Some(name@);
    let nm = chars_of(name);
    let mut i: usize = 0;
    while i < parent.children.len()
        invariant
            i <= parent.children@.len(),
            tree_ok(source@, *parent),
            nm@ == name@,
            p == (|c: SyntaxNode| is_decl_kind(c.kind@) && decl_name(c, source@) == Some(name@)),
            forall|j: int| 0 <= j < i ==> !p(#[trigger] parent.children@[j]),
        decreases parent.children@.len() - i,
    {
        let c = &parent.children[i];
        assert(tree_ok(source@, *c));
        if is_declaration_kind(c.kind.as_str()) {
            match get_declaration_name(c, source) {
                Some(d) => {
                    let dc = chars_of(d.as_str());
                    if seq_eq(&dc, &nm) {
                        proof {
                            crate::syntax::lemma_first_where(parent.children@, p, i as int);
                        }
                        return Some(c);
                    }
                },
                None => {},
            }
        }
        i += 1;
    }
    None
}

/// Find a top-level declaration by name.
pub fn find_declaration_by_name<'a>(root: &'a SyntaxNode, source: &str, name: &str) -> (r: Option<&'a SyntaxNode>)
    requires
        tree_ok(source@, *root),
    ensures
        match r {
            Some(c) => exists|i: int| 0 <= i < root.children@.len() && decl_by_name_index(root.children@, source@, name@) == Some(i) && root.children@[i] == *c,
            None => decl_by_name_index(root.children@, source@, name@) is None,
        },
{
    find_declaration_among(root, source, name)
}

/// The top-level declaration of `name`, if any.
pub open spec fn named_decl(root: SyntaxNode, src: Seq<char>, name: Seq<char>) -> Option<SyntaxNode> {
    match decl_by_name_index(root.children@, src, name) {
        Some(i) => Some(root.children@[i]),
        None => None,
    }
}

/// Find a top-level declaration by name, as a node of the (well-spanned) tree.
pub fn find_top_decl<'a>(root: &'a SyntaxNode, source: &str, name: &str) -> (r: Option<&'a SyntaxNode>)
    requires
        tree_ok(source@, *root),
    ensures
        match r {
            Some(f) => named_decl(*root, source@, name@) == Some(*f) && tree_ok(source@, *f) && exists|i: int|
                0 <= i < root.children@.len() && root.children@[i] == *f,
            None => named_decl(*root, source@, name@) is None,
        },
{
    let r = find_declaration_by_name(root, source, name);
    match r {
        Some(f) => {
            let ghost i = choose|i: int|
                0 <= i < root.children@.len() && decl_by_name_index(root.children@, source@, name@)
                    == Some(i) && root.children@[i] == *f;
            assert(tree_ok(source@, root.children@[i]));
        },
        None => {},
    }
    r
}

/// The first child of `parent` that is a declaration starting on `line`.
pub open spec fn decl_by_line_index(cs: Seq<SyntaxNode>, line: usize) -> Option<int> {
    crate::syntax::first_where(cs, |c: SyntaxNode| is_decl_kind(c.kind@) && c.start_row == line)
}

pub(crate) fn find_declaration_among_by_line(parent: &SyntaxNode, line: usize) -> (r: Option<&SyntaxNode>)
    ensures
        match r {
            Some(c) => exists|i: int| 0 <= i < parent.children@.len() && decl_by_line_index(parent.children@, line) == Some(i) && parent.children@[i] == *c,
            None => decl_by_line_index(parent.children@, line) is None,
        },
{
    let ghost p = |c: SyntaxNode| is_decl_kind(c.kind@) && c.start_row == line;
    let mut i: usize = 0;
    while i < parent.children.len()
        invariant
            i <= parent.children@.len(),
            p == (|c: SyntaxNode| is_decl_kind(c.kind@) && c.start_row == line),
            forall|j: int| 0 <= j < i ==> !p(#[trigger] parent.children@[j]),
        decreases parent.children@.len() - i,
    {
        let c = &parent.children[i];
        if is_declaration_kind(c.kind.as_str()) && c.start_row == line {
            proof {
                crate::syntax::lemma_first_where(parent.children@, p, i as int);
            }
            return Some(c);
        }
        i += 1;
    }
    None
}

/// Find a top-level declaration at the given line (0-based).
/// Only matches the declaration's start line — pointing to a line inside
/// a function body does NOT match the enclosing function.
pub fn find_declaration_by_line(root: &SyntaxNode, line: usize) -> (r: Option<&SyntaxNode>)
    ensures
        match r {
            Some(c) => exists|i: int| 0 <= i < root.children@.len() && decl_by_line_index(root.children@, line) == Some(i) && root.children@[i] == *c,
            None => decl_by_line_index(root.children@, line) is None,
        },
{
    find_declaration_among_by_line(root, line)
}

/// The first child of `parent` that is a class named `name`.
pub open spec fn class_index(cs: Seq<SyntaxNode>, src: Seq<char>, name: Seq<char>) -> Option<int> {
    crate::syntax::first_where(cs, |c: SyntaxNode| is_class_named(c, src, name))
}

/// A class definition whose name is `name`.
pub open spec fn is_class_named(c: SyntaxNode, src: Seq<char>, name: Seq<char>) -> bool {
    c.kind@ == "class_definition"@ && (field_child(c, "name"@) matches Some(nn) && text_of(src, nn) == name)
}

/// Find a class_definition by name among direct children of `parent`.
#[verifier::rlimit(40)]
pub fn find_class_definition<'a>(parent: &'a SyntaxNode, source: &str, class_name: &str) -> (r: Option<&'a SyntaxNode>)
    requires
        tree_ok(source@, *parent),
    ensures
        match r {
            Some(c) => exists|i: int| 0 <= i < parent.children@.len() && class_index(parent.children@, source@, class_name@) == Some(i) && parent.children@[i] == *c,
            None => class_index(parent.children@, source@, class_name@) is None,
        },
{
    let ghost p = |c: SyntaxNode| is_class_named(c, source@, class_name@);
    let nm = chars_of(class_name);
    let mut i: usize = 0;
    while i < parent.children.len()
        invariant
            i <= parent.children@.len(),
            tree_ok(source@, *parent),
            nm@ == class_name@,
            p == (|c: SyntaxNode| is_class_named(c, source@, class_name@)),
            forall|j: int| 0 <= j < i ==> !p(#[trigger] parent.children@[j]),
        decreases parent.children@.len() - i,
    {
        let c = &parent.children[i];
        assert(tree_ok(source@, *c));
        if kind_is(c, "class_definition") {
            match child_by_field_name(c, "name") {
                Some(nn) => {
                    assert(tree_ok(source@, *nn));
                    let t = node_text(nn, source);
                    let tc = chars_of(t.as_str());
                    if seq_eq(&tc, &nm) {
                        proof {
                            crate::syntax::lemma_first_where(parent.children@, p, i as int);
                        }
                        return Some(c);
                    }
                },
                None => {},
            }
        }
        i += 1;
    }
    None
}

/// Find the body node of a class_definition.
pub fn class_body(class_node: &SyntaxNode) -> (r: Option<&SyntaxNode>)
    ensures
        match r {
            Some(b) => field_child(*class_node, "body"@) == Some(*b) && exists|i: int|
                0 <= i < class_node.children@.len() && class_node.children@[i] == *b,
            None => field_child(*class_node, "body"@) is None,
        },
{
    child_by_field_name(class_node, "body")
}

/// Find a declaration by name within a class's body.
pub fn find_declaration_in_class<'a>(class_node: &'a SyntaxNode, source: &str, name: &str) -> (r: Option<&'a SyntaxNode>)
    requires
        tree_ok(source@, *class_node),
    ensures
        match field_child(*class_node, "body"@) {
            Some(b) => match r {
                Some(c) => exists|i: int| 0 <= i < b.children@.len() && decl_by_name_index(b.children@, source@, name@) == Some(i) && b.children@[i] == *c,
                None => decl_by_name_index(b.children@, source@, name@) is None,
            },
            None => r is None,
        },
{
    match class_body(class_node) {
        Some(b) => {
            assert(tree_ok(source@, *b));
            let r = find_declaration_among(b, source, name);
            match r {
                Some(c) => {
                    let ghost i = choose|i: int| 0 <= i < b.children@.len() && decl_by_name_index(b.children@, source@, name@) == Some(i) && b.children@[i] == *c;
                    assert(0 <= i < b.children@.len() && decl_by_name_index(b.children@, source@, name@) == Some(i) && b.children@[i] == *c);
                },
                None => {},
            }
            r
        },
        None => None,
    }
}

/// Find a declaration by line within a class's body.
pub fn find_declaration_in_class_by_line(class_node: &SyntaxNode, line: usize) -> (r: Option<&SyntaxNode>)
    ensures
        match field_child(*class_node, "body"@) {
            Some(b) => match r {
                Some(c) => exists|i: int| 0 <= i < b.children@.len() && decl_by_line_index(b.children@, line) == Some(i) && b.children@[i] == *c,
                None => decl_by_line_index(b.children@, line) is None,
            },
            None => r is None,
        },
{
    match class_body(class_node) {
        Some(b) => find_declaration_among_by_line(b, line),
        None => None,
    }
}

// ── Declaration ranges ─────────────────────────────────────────────────────

/// Byte offset where line `l` ends (the next line's start, or the end of the text).
pub open spec fn line_end(b: Seq<u8>, l: int) -> int {
    let st = nl_starts(b);
    if l + 1 < st.len() {
        st[l + 1] as int
    } else {
        b.len() as int
    }
}

/// Line `l` (with its line feed) is a comment or annotation line: trimmed, it starts with `#` or `@`.
pub open spec fn attached_line(src: Seq<char>, l: int) -> bool {
    let b = encode_utf8(src);
    let t = trim(text_between(src, nl_starts(b)[l] as int, line_end(b, l)));
    t.len() > 0 && (t[0] == '#' || t[0] == '@')
}

/// The first line of the run of comment/annotation lines that ends right above line `d`.
pub open spec fn first_attached(src: Seq<char>, d: nat) -> nat
    decreases d,
{
    if d > 0 && attached_line(src, d - 1) {
        first_attached(src, (d - 1) as nat)
    } else {
        d
    }
}

/// The byte range of a declaration with its doc comments and annotations and trailing newline.
pub open spec fn full_range(src: Seq<char>, n: SyntaxNode) -> (usize, usize) {
    let b = encode_utf8(src);
    let f = first_attached(src, n.start_row as nat);
    let end = if n.end_byte < b.len() && b[n.end_byte as int] == 10u8 {
        (n.end_byte + 1) as usize
    } else {
        n.end_byte
    };
    (nl_starts(b)[f as int], end)
}

/// Expand a declaration node's byte range to include immediately preceding
/// doc comments and annotations (contiguous `#`/`@` lines with no blank-line gap).
/// Returns (start_byte, end_byte) covering annotations + comments + declaration + trailing newline.
pub fn declaration_full_range(node: &SyntaxNode, source: &str) -> (r: (usize, usize))
    requires
        node.start_row < nl_starts(source.spec_bytes()).len(),
        node.end_byte <= source.spec_bytes().len(),
    ensures
        r == full_range(source@, *node),
{
    let starts = line_starts(source);
    let bytes = source.as_bytes();
    let ghost b = source.spec_bytes();
    let blen = bytes.len();
    assert(b.len() == blen);
    proof {
        lemma_nl_starts(b);
        lemma_nl_starts_boundary(source@);
    }
    let decl_line = node.start_row;
    let mut first_line = decl_line;
    while first_line > 0
        invariant
            first_line <= decl_line < starts@.len(),
            starts@ == nl_starts(b),
            b == encode_utf8(source@),
            bytes@ == b,
            first_attached(source@, decl_line as nat) == first_attached(source@, first_line as nat),
            forall|k: int| 0 <= k < nl_starts(b).len() ==> span_ok(source@, #[trigger] nl_starts(b)[k] as int, b.len() as int),
            forall|k: int| 0 <= k < nl_starts(b).len() ==> #[trigger] nl_starts(b)[k] <= b.len(),
            forall|j: int, k: int| 0 <= j < k < nl_starts(b).len() ==> nl_starts(b)[j] < nl_starts(b)[k],
        ensures
            first_line <= decl_line,
            first_attached(source@, decl_line as nat) == first_line,
        decreases first_line,
    {
        let check = first_line - 1;
        let line_start = starts[check];
        let line_end_byte = if check + 1 < starts.len() {
            starts[check + 1]
        } else {
            bytes.len()
        };
        proof {
            let x = nl_starts(b)[check as int] as int;
            let y = line_end(b, check as int);
            assert(span_ok(source@, x, b.len() as int));
            if check + 1 < starts@.len() {
                assert(span_ok(source@, y, b.len() as int));
            } else {
                vstd::utf8::is_char_boundary_start_end_of_seq(b);
            }
        }
        let line_text = slice_str(source, line_start, line_end_byte);
        let lt = chars_of(line_text.as_str());
        let t = trimmed(&lt);
        let attached = t.len() > 0 && (t[0] == '#' || t[0] == '@');
        if !attached {
            break;
        }
        first_line = check;
    }
    let start_byte = starts[first_line];
    let mut end_byte = node.end_byte;
    if end_byte < bytes.len() && bytes[end_byte] == 10u8 {
        end_byte += 1;
    }
    (start_byte, end_byte)
}

// ── Blank-line normalisation ───────────────────────────────────────────────

/// Collapses every run of line feeds longer than three down to three; also
/// gives the length of the run of line feeds that ends the input.
pub open spec fn collapse(s: Seq<char>) -> (Seq<char>, nat)
    decreases s.len(),
{
    if s.len() == 0 {
        (Seq::empty(), 0)
    } else {
        let (o, c) = collapse(s.drop_last());
        if s.last() == '\n' {
            if c + 1 <= 3 {
                (o.push('\n'), c + 1)
            } else {
                (o, c + 1)
            }
        } else {
            (o.push(s.last()), 0)
        }
    }
}

/// After removing a range, collapse runs of 3+ blank lines down to 2.
pub fn normalize_blank_lines(source: &mut String)
    ensures
        final(source)@ == collapse(old(source)@).0,
{
    let v = chars_of(source.as_str());
    let mut out: Vec<char> = Vec::new();
    let mut newline_count: usize = 0;
    let mut i: usize = 0;
    while i < v.len()
        invariant
            i <= v@.len(),
            (out@, newline_count as nat) == collapse(v@.take(i as int)),
            newline_count <= i,
        decreases v@.len() - i,
    {
        let ghost pre = v@.take(i as int);
        assert(v@.take(i + 1).drop_last() =~= pre);
        let ch = v[i];
        if ch == '\n' {
            newline_count += 1;
            if newline_count <= 3 {
                out.push(ch);
            }
        } else {
            newline_count = 0;
            out.push(ch);
        }
        i += 1;
    }
    assert(v@.take(i as int) =~= v@);
    *source = string_of(&out);
}


// ── Re-indentation ─────────────────────────────────────────────────────────

/// Bytes taken by a character in UTF-8.
pub open spec fn char_w(c: char) -> nat {
    let u = c as u32;
    if u < 0x80 {
        1
    } else if u < 0x800 {
        2
    } else if u < 0x10000 {
        3
    } else {
        4
    }
}

/// Bytes taken by a text in UTF-8 (`str::len`).
pub open spec fn wlen(s: Seq<char>) -> nat
    decreases s.len(),
{
    if s.len() == 0 {
        0
    } else {
        wlen(s.drop_last()) + char_w(s.last())
    }
}

/// UTF-8 encoding distributes over concatenation.
pub proof fn lemma_encode_concat(a: Seq<char>, b: Seq<char>)
    ensures
        encode_utf8(a + b) == encode_utf8(a) + encode_utf8(b),
    decreases a.len(),
{
    if a.len() > 0 {
        lemma_encode_concat(a.drop_first(), b);
        assert((a + b).drop_first() =~= a.drop_first() + b);
        assert((a + b)[0] == a[0]);
        assert(encode_utf8(a + b) =~= encode_utf8(a) + encode_utf8(b));
    } else {
        assert(a + b =~= b);
        assert(encode_utf8(a) =~= Seq::<u8>::empty());
        assert(encode_utf8(a) + encode_utf8(b) =~= encode_utf8(b));
    }
}

/// `wlen` is the length of the UTF-8 encoding.
pub proof fn lemma_wlen_encode(s: Seq<char>)
    ensures
        wlen(s) == encode_utf8(s).len(),
    decreases s.len(),
{
    if s.len() > 0 {
        lemma_wlen_encode(s.drop_last());
        lemma_encode_concat(s.drop_last(), seq![s.last()]);
        assert(s.drop_last() + seq![s.last()] =~= s);
        let c = s.last();
        vstd::utf8::char_is_scalar(c);
        let sc = seq![c];
        assert(sc[0] == c);
        assert(sc.drop_first() =~= Seq::<char>::empty());
        assert(encode_utf8(sc.drop_first()) =~= Seq::<u8>::empty());
        assert(encode_utf8(sc) == encode_scalar(sc[0] as u32) + encode_utf8(sc.drop_first()));
        assert(encode_utf8(sc) =~= encode_scalar(c as u32));
        assert(encode_scalar(c as u32).len() == char_w(c));
    }
}

/// The text between two character boundaries takes as many bytes as they are apart.
pub proof fn lemma_text_between_width(src: Seq<char>, a: int, b: int)
    requires
        span_ok(src, a, b),
    ensures
        wlen(text_between(src, a, b)) == b - a,
{
    let bytes = encode_utf8(src);
    encode_utf8_valid_utf8(src);
    crate::syntax::lemma_prefix_boundary(bytes, a, b);
    let pre = bytes.subrange(0, b);
    vstd::utf8::valid_utf8_split(pre, a);
    assert(pre.subrange(a, pre.len() as int) =~= bytes.subrange(a, b));
    vstd::utf8::decode_utf8_encode_utf8(bytes.subrange(a, b));
    lemma_wlen_encode(text_between(src, a, b));
}

/// `wlen` of a prefix is at most `wlen` of the whole.
pub proof fn lemma_wlen_prefix(s: Seq<char>, k: int)
    requires
        0 <= k <= s.len(),
    ensures
        wlen(s.take(k)) <= wlen(s),
    decreases s.len() - k,
{
    if k < s.len() {
        lemma_wlen_prefix(s, k + 1);
        lemma_wlen_take_step(s, k);
    } else {
        assert(s.take(k) =~= s);
    }
}

/// Width in bytes of a line's leading whitespace.
pub open spec fn indent_w(l: Seq<char>) -> nat {
    wlen(indent_of(l))
}

/// The least indentation width (in bytes) over the non-blank lines.
pub open spec fn min_indent(ls: Seq<Seq<char>>) -> Option<nat>
    decreases ls.len(),
{
    if ls.len() == 0 {
        None
    } else {
        let m = min_indent(ls.drop_last());
        let l = ls.last();
        if is_blank(l) {
            m
        } else {
            match m {
                None => Some(indent_w(l)),
                Some(x) => Some(if indent_w(l) < x { indent_w(l) } else { x }),
            }
        }
    }
}

/// The least indentation width of the text's non-blank lines, 0 when there are none.
pub open spec fn text_min_indent(text: Seq<char>) -> nat {
    match min_indent(lines(text)) {
        Some(m) => m,
        None => 0,
    }
}

/// Some prefix of `l` is exactly `n` bytes long.
pub open spec fn can_cut(l: Seq<char>, n: nat) -> bool {
    exists|k: int| 0 <= k <= l.len() && wlen(l.take(k)) == n
}

/// The number of characters of `l` that take exactly `n` bytes.
pub open spec fn cut_at(l: Seq<char>, n: nat) -> int {
    choose|k: int| 0 <= k <= l.len() && wlen(l.take(k)) == n
}

/// Removing the common indentation leaves every non-blank line cut at a
/// character boundary (where this fails, slicing the line panics).
pub open spec fn reindent_ok(text: Seq<char>) -> bool {
    let ls = lines(text);
    forall|i: int|
        0 <= i < ls.len() && !is_blank(#[trigger] ls[i]) ==> can_cut(ls[i], text_min_indent(text))
}

/// One re-indented line: blank lines become empty, others lose the common
/// indentation and gain `prefix`.
pub open spec fn reindent_line(l: Seq<char>, m: nat, prefix: Seq<char>) -> Seq<char> {
    if is_blank(l) {
        Seq::empty()
    } else {
        prefix + l.skip(cut_at(l, m))
    }
}

/// The text's lines with their common indentation replaced by `prefix`, joined by line feeds.
pub open spec fn reindented(text: Seq<char>, prefix: Seq<char>) -> Seq<char> {
    let ls = lines(text);
    let m = text_min_indent(text);
    join(Seq::new(ls.len(), |i: int| reindent_line(ls[i], m, prefix)), seq!['\n'])
}

proof fn lemma_wlen_take_step(l: Seq<char>, k: int)
    requires
        0 <= k < l.len(),
    ensures
        wlen(l.take(k + 1)) == wlen(l.take(k)) + char_w(l[k]),
{
    assert(l.take(k + 1).drop_last() =~= l.take(k));
}

proof fn lemma_wlen_take_mono(l: Seq<char>, a: int, b: int)
    requires
        0 <= a < b <= l.len(),
    ensures
        wlen(l.take(a)) < wlen(l.take(b)),
    decreases b - a,
{
    lemma_wlen_take_step(l, b - 1);
    if a < b - 1 {
        lemma_wlen_take_mono(l, a, b - 1);
    }
}

proof fn lemma_wlen_bound(s: Seq<char>)
    ensures
        wlen(s) <= 4 * s.len(),
    decreases s.len(),
{
    if s.len() > 0 {
        lemma_wlen_bound(s.drop_last());
    }
}

/// UTF-8 width of a character.
fn char_width(c: char) -> (w: u128)
    ensures
        w == char_w(c),
{
    let u = c as u32;
    if u < 0x80 {
        1
    } else if u < 0x800 {
        2
    } else if u < 0x10000 {
        3
    } else {
        4
    }
}

/// UTF-8 width of the first `k` characters.
pub(crate) fn width_of_prefix(l: &[char], k: usize) -> (w: u128)
    requires
        k <= l@.len(),
    ensures
        w == wlen(l@.take(k as int)),
{
    let mut acc: u128 = 0;
    let mut j: usize = 0;
    while j < k
        invariant
            j <= k <= l@.len(),
            acc == wlen(l@.take(j as int)),
        decreases k - j,
    {
        proof {
            lemma_wlen_take_step(l@, j as int);
            lemma_wlen_bound(l@.take(j as int));
        }
        acc = acc + char_width(l[j]);
        j += 1;
    }
    acc
}

/// The least indentation width of the non-blank lines.
fn min_indent_of(ls: &Vec<Vec<char>>) -> (m: Option<u128>)
    ensures
        opt_nat(m) == min_indent(ls@.map_values(|v: Vec<char>| v@)),
{
    let ghost sp = ls@.map_values(|v: Vec<char>| v@);
    let mut m: Option<u128> = None;
    let mut i: usize = 0;
    while i < ls.len()
        invariant
            i <= ls@.len(),
            sp == ls@.map_values(|v: Vec<char>| v@),
            opt_nat(m) == min_indent(sp.take(i as int)),
        decreases ls@.len() - i,
    {
        assert(sp.take(i + 1).drop_last() =~= sp.take(i as int));
        assert(sp.take(i + 1).last() == ls@[i as int]@);
        if !blank(&ls[i]) {
            let k = lead_ws_len(&ls[i]);
            proof {
                lemma_lead_ws_bound(ls@[i as int]@);
            }
            let w = width_of_prefix(&ls[i], k);
            assert(ls@[i as int]@.take(k as int) == indent_of(ls@[i as int]@));
            m = match m {
                None => Some(w),
                Some(x) => Some(if w < x { w } else { x }),
            };
        }
        i += 1;
    }
    assert(sp.take(i as int) =~= sp);
    m
}

pub open spec fn opt_nat(m: Option<u128>) -> Option<nat> {
    match m {
        None => None,
        Some(x) => Some(x as nat),
    }
}

/// Some prefix of the line takes exactly `m` bytes.
fn cuttable(l: &[char], m: u128) -> (r: bool)
    ensures
        r == can_cut(l@, m as nat),
{
    let mut acc: u128 = 0;
    let mut j: usize = 0;
    while j < l.len() && acc < m
        invariant
            j <= l@.len(),
            acc == wlen(l@.take(j as int)),
            forall|k: int| 0 <= k < j ==> wlen(l@.take(k)) < m,
        decreases l@.len() - j,
    {
        proof {
            lemma_wlen_take_step(l@, j as int);
            lemma_wlen_bound(l@.take(j as int));
        }
        acc = acc + char_width(l[j]);
        j += 1;
    }
    proof {
        if acc == m {
            assert(wlen(l@.take(j as int)) == m);
        } else if acc > m {
            assert forall|k: int| 0 <= k <= l@.len() implies wlen(l@.take(k)) != m by {
                if k > j {
                    lemma_wlen_take_mono(l@, j as int, k);
                }
            }
        } else {
            assert(j == l@.len());
            assert forall|k: int| 0 <= k <= l@.len() implies wlen(l@.take(k)) != m by {
                if k == j {
                    assert(l@.take(k) =~= l@.take(j as int));
                }
            }
        }
    }
    acc == m
}

/// Whether the text can be re-indented: each non-blank line can lose the
/// common indentation at a character boundary.
pub fn can_re_indent(text: &str) -> (r: bool)
    ensures
        r == reindent_ok(text@),
{
    let v = chars_of(text);
    let ls = lines_of(&v);
    let ghost sp = lines(text@);
    assert(ls@.map_values(|x: Vec<char>| x@) =~= sp);
    let m = match min_indent_of(&ls) {
        Some(m) => m,
        None => 0,
    };
    assert(m as nat == text_min_indent(text@));
    let mut i: usize = 0;
    while i < ls.len()
        invariant
            i <= ls@.len(),
            ls@.len() == sp.len(),
            sp == lines(text@),
            forall|j: int| 0 <= j < ls@.len() ==> (#[trigger] ls@[j])@ == sp[j],
            m as nat == text_min_indent(text@),
            forall|j: int| 0 <= j < i && !is_blank(#[trigger] sp[j]) ==> can_cut(sp[j], m as nat),
        decreases ls@.len() - i,
    {
        if !blank(&ls[i]) && !cuttable(&ls[i], m) {
            assert(!is_blank(sp[i as int]) && !can_cut(sp[i as int], m as nat));
            return false;
        }
        i += 1;
    }
    true
}

/// Re-indents one line: drops `m` bytes of indentation and prefixes `prefix`.
fn reindent_one(l: &[char], m: u128, prefix: &[char]) -> (r: Vec<char>)
    requires
        !is_blank(l@),
        can_cut(l@, m as nat),
    ensures
        r@ == prefix@ + l@.skip(cut_at(l@, m as nat)),
{
    let mut acc: u128 = 0;
    let mut j: usize = 0;
    while j < l.len() && acc < m
        invariant
            j <= l@.len(),
            acc == wlen(l@.take(j as int)),
            j > 0 ==> wlen(l@.take(j - 1)) < m,
        decreases l@.len() - j,
    {
        proof {
            lemma_wlen_take_step(l@, j as int);
            lemma_wlen_bound(l@.take(j as int));
        }
        acc = acc + char_width(l[j]);
        j += 1;
    }
    proof {
        let k = cut_at(l@, m as nat);
        assert(0 <= k <= l@.len() && wlen(l@.take(k)) == m);
        if k < j {
            if k < j - 1 {
                lemma_wlen_take_mono(l@, k, j - 1);
            }
        } else if k > j {
            lemma_wlen_take_mono(l@, j as int, k);
            assert(l@.take(l@.len() as int) =~= l@);
        }
        assert(k == j);
    }
    let mut r: Vec<char> = Vec::new();
    extend(&mut r, prefix);
    let rest = slice_of(l, j, l.len());
    extend(&mut r, &rest);
    assert(rest@ =~= l@.skip(j as int));
    r
}

/// Replaces the common indentation of `text` with `prefix`.
pub(crate) fn re_indent_with(text: &str, prefix: &[char]) -> (r: String)
    requires
        reindent_ok(text@),
    ensures
        r@ == reindented(text@, prefix@),
{
    let v = chars_of(text);
    let ls = lines_of(&v);
    let ghost sp = lines(text@);
    assert(ls@.map_values(|w: Vec<char>| w@) =~= sp);
    let m = min_indent_of(&ls);
    let mm: u128 = match m {
        Some(x) => x,
        None => 0,
    };
    assert(opt_nat(m) == min_indent(sp));
    assert(mm == text_min_indent(text@));
    let mut out: Vec<Vec<char>> = Vec::new();
    let mut i: usize = 0;
    while i < ls.len()
        invariant
            i <= ls@.len(),
            sp == lines(text@),
            ls@.len() == sp.len(),
            forall|j: int| 0 <= j < ls@.len() ==> (#[trigger] ls@[j])@ == sp[j],
            mm == text_min_indent(text@),
            reindent_ok(text@),
            out@.len() == i,
            forall|j: int|
                0 <= j < i ==> (#[trigger] out@[j])@ == reindent_line(sp[j], mm as nat, prefix@),
        decreases ls@.len() - i,
    {
        if blank(&ls[i]) {
            out.push(Vec::new());
        } else {
            assert(!is_blank(sp[i as int]));
            let t = reindent_one(&ls[i], mm, prefix);
            out.push(t);
        }
        i += 1;
    }
    let nl = chars_of("\n");
    let joined = join_lines(&out, &nl);
    assert(out@.map_values(|w: Vec<char>| w@) =~= Seq::new(
        sp.len(),
        |j: int| reindent_line(sp[j], mm as nat, prefix@),
    ));
    proof {
        reveal_strlit("\n");
    }
    assert(nl@ =~= seq!['\n']);
    string_of(&joined)
}

/// Re-indent text to a target depth (measured in tabs).
/// Strips the minimum indentation and replaces it with `target_tabs` tabs.
pub fn re_indent_to_depth(text: &str, target_tabs: usize) -> (r: String)
    requires
        reindent_ok(text@),
    ensures
        r@ == reindented(text@, repeat(seq!['\t'], target_tabs as nat)),
{
    let mut prefix: Vec<char> = Vec::new();
    let mut i: usize = 0;
    while i < target_tabs
        invariant
            i <= target_tabs,
            prefix@ == repeat(seq!['\t'], i as nat),
        decreases target_tabs - i,
    {
        prefix.push('\t');
        i += 1;
        assert(prefix@ =~= repeat(seq!['\t'], (i - 1) as nat) + seq!['\t']);
    }
    re_indent_with(text, &prefix)
}

} // verus!
