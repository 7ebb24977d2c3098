//! Encapsulate-field: wrap a variable in `set`/`get` accessors, either inline
//! (GDScript 4 property syntax) or with a backing field and two functions.
use vstd::prelude::*;
use vstd::string::StringSliceAdditionalSpecFns;
use vstd::utf8::{encode_utf8, encode_utf8_valid_utf8, is_char_boundary_start_end_of_seq};

use crate::refactor::invert_if::{line_offset, line_start_offset};
use crate::refactor::{find_top_decl, lemma_nl_starts, lemma_nl_starts_boundary, named_decl, nl_starts};
use crate::syntax::{
    SyntaxNode, child_by_field_name, field_child, kind_is, lemma_after_newline_boundary,
    node_text, slice_str, span_ok, text_between, text_of, tree_ok,
};
use crate::text::{
    chars_of, contains, find, first_occurrence, has_sub, indent_of, nth_line, push_str,
    slice_of, string_of, trim, trimmed,
};

use crate::parse::{fitting_tree, parse_fitting};

verus! {

/// What an encapsulate-field run reports.
pub struct EncapsulateFieldOutput {
    pub variable: String,
    /// `inline` or `backing-field`.
    pub style: String,
    pub file: String,
    pub line: u32,
    pub applied: bool,
    pub warnings: Vec<String>,
}

/// Why a variable cannot be encapsulated.
#[derive(Debug)]
pub enum EncapsulateError {
    /// No top-level declaration has the name.
    NotFound(String),
    /// The declaration is not a `var`.
    NotVariable(String),
    /// The declaration is a constant.
    Constant,
    /// The variable already has `set`/`get` accessors.
    HasAccessors(String),
    /// The backing field's name is taken.
    BackingExists(String),
}

// ── Reading the declaration ────────────────────────────────────────────────

/// Some child of the node is the `const` keyword.
pub open spec fn const_child(n: SyntaxNode) -> bool {
    exists|i: int| 0 <= i < n.children@.len() && (#[trigger] n.children@[i]).kind@ == "const"@
}

/// Check if a variable_statement has a `const` keyword.
pub fn has_const_keyword(node: &SyntaxNode) -> (r: bool)
    ensures
        r == const_child(*node),
{
    let mut i: usize = 0;
    while i < node.children.len()
        invariant
            i <= node.children@.len(),
            forall|j: int| 0 <= j < i ==> (#[trigger] node.children@[j]).kind@ != "const"@,
        decreases node.children@.len() - i,
    {
        if kind_is(&node.children[i], "const") {
            return true;
        }
        i += 1;
    }
    false
}

/// An accessor child kind.
pub open spec fn accessor_kind(k: Seq<char>) -> bool {
    k == "setget"@ || k == "setter"@ || k == "getter"@
}

/// The variable already has accessors: an accessor child, or a `set(`/`get:`
/// line (tab- or four-space-indented) in its text.
pub open spec fn setget_present(n: SyntaxNode, src: Seq<char>) -> bool {
    let t = text_of(src, n);
    ||| exists|i: int| 0 <= i < n.children@.len() && accessor_kind((#[trigger] n.children@[i]).kind@)
    ||| contains(t, "\n\tset("@)
    ||| contains(t, "\n\tget:"@)
    ||| contains(t, "\n    set("@)
    ||| contains(t, "\n    get:"@)
}

/// Check if a variable_statement already has set/get accessors.
pub fn has_setget(node: &SyntaxNode, source: &str) -> (r: bool)
    requires
        span_ok(source@, node.start_byte as int, node.end_byte as int),
    ensures
        r == setget_present(*node, source@),
{
    let mut i: usize = 0;
    while i < node.children.len()
        invariant
            i <= node.children@.len(),
            forall|j: int| 0 <= j < i ==> !accessor_kind((#[trigger] node.children@[j]).kind@),
        decreases node.children@.len() - i,
    {
        let c = &node.children[i];
        if kind_is(c, "setget") || kind_is(c, "setter") || kind_is(c, "getter") {
            return true;
        }
        i += 1;
    }
    let t = node_text(node, source);
    let tc = chars_of(t.as_str());
    let a = chars_of("\n\tset(");
    let b = chars_of("\n\tget:");
    let c = chars_of("\n    set(");
    let d = chars_of("\n    get:");
    has_sub(&tc, &a) || has_sub(&tc, &b) || has_sub(&tc, &c) || has_sub(&tc, &d)
}

/// The declared type, unless it is inferred (`:=`).
pub open spec fn type_text(n: SyntaxNode, src: Seq<char>) -> Option<Seq<char>> {
    match field_child(n, "type"@) {
        Some(t) => if t.kind@ == "inferred_type"@ {
            None
        } else {
            Some(text_of(src, t))
        },
        None => None,
    }
}

/// The initial value's text.
pub open spec fn value_text(n: SyntaxNode, src: Seq<char>) -> Option<Seq<char>> {
    match field_child(n, "value"@) {
        Some(v) => Some(text_of(src, v)),
        None => None,
    }
}

/// Extract the type annotation text (e.g., "int", "Node2D") if present.
pub fn extract_type_text(var_node: &SyntaxNode, source: &str) -> (r: Option<String>)
    requires
        tree_ok(source@, *var_node),
    ensures
        match r {
            Some(t) => type_text(*var_node, source@) == Some(t@),
            None => type_text(*var_node, source@) is None,
        },
{
    match child_by_field_name(var_node, "type") {
        Some(t) => {
            assert(tree_ok(source@, *t));
            if kind_is(t, "inferred_type") {
                None
            } else {
                Some(node_text(t, source))
            }
        },
        None => None,
    }
}

fn value_of(var_node: &SyntaxNode, source: &str) -> (r: Option<String>)
    requires
        tree_ok(source@, *var_node),
    ensures
        match r {
            Some(t) => value_text(*var_node, source@) == Some(t@),
            None => value_text(*var_node, source@) is None,
        },
{
    match child_by_field_name(var_node, "value") {
        Some(v) => {
            assert(tree_ok(source@, *v));
            Some(node_text(v, source))
        },
        None => None,
    }
}

/// The annotations written before `static var` (or else before `var`), trimmed.
pub open spec fn annotation_prefix(n: SyntaxNode, src: Seq<char>) -> Seq<char> {
    let full = text_of(src, n);
    match first_occurrence(full, "static var "@) {
        Some(p) => trim(full.subrange(0, p)),
        None => match first_occurrence(full, "var "@) {
            Some(p) => trim(full.subrange(0, p)),
            None => Seq::empty(),
        },
    }
}

fn trimmed_head(t: &Vec<char>, p: usize) -> (r: Vec<char>)
    requires
        p <= t@.len(),
    ensures
        r@ == trim(t@.subrange(0, p as int)),
{
    let h = slice_of(t, 0, p);
    trimmed(&h)
}

fn find_text(t: &Vec<char>, pat: &str) -> (r: Option<usize>)
    ensures
        match r {
            Some(p) => first_occurrence(t@, pat@) == Some(p as int) && p <= t@.len(),
            None => first_occurrence(t@, pat@) is None,
        },
{
    let pc = chars_of(pat);
    find(t, &pc)
}

/// Collect annotation text before `var`/`static` in the node.
pub fn get_annotation_prefix(node: &SyntaxNode, source: &str) -> (r: String)
    requires
        span_ok(source@, node.start_byte as int, node.end_byte as int),
    ensures
        r@ == annotation_prefix(*node, source@),
{
    let full = node_text(node, source);
    let f = chars_of(full.as_str());
    match find_text(&f, "static var ") {
        Some(p) => {
            let h = trimmed_head(&f, p);
            string_of(&h)
        },
        None => match find_text(&f, "var ") {
            Some(p) => {
                let h = trimmed_head(&f, p);
                string_of(&h)
            },
            None => String::new(),
        },
    }
}

/// Get the indentation of a given line.
pub fn get_var_indent(source: &str, line: usize) -> (r: String)
    ensures
        r@ == indent_of(nth_line(source@, line as int)),
{
    crate::refactor::extract_method::get_indent(source, line)
}

/// Get byte offset of a line start.
pub fn line_byte_offset(source: &str, line: usize) -> (r: usize)
    ensures
        r == line_offset(source.spec_bytes(), line as int),
{
    line_start_offset(source, line)
}

/// One past the node's end, and past a line feed that follows it.
pub open spec fn end_with_nl(src: Seq<char>, n: SyntaxNode) -> int {
    let b = encode_utf8(src);
    if n.end_byte < b.len() && b[n.end_byte as int] == 10u8 {
        n.end_byte + 1
    } else {
        n.end_byte as int
    }
}

/// Get the byte offset past the node, including its trailing newline.
pub fn node_end_with_newline(source: &str, node: &SyntaxNode) -> (r: usize)
    requires
        span_ok(source@, node.start_byte as int, node.end_byte as int),
    ensures
        r == end_with_nl(source@, *node),
        span_ok(source@, r as int, encode_utf8(source@).len() as int),
{
    let bytes = source.as_bytes();
    proof {
        encode_utf8_valid_utf8(source@);
        is_char_boundary_start_end_of_seq(bytes@);
    }
    let mut end = node.end_byte;
    if end < bytes.len() && bytes[end] == 10u8 {
        proof {
            lemma_after_newline_boundary(bytes@, end as int);
        }
        end += 1;
    }
    end
}

// ── The new declaration ────────────────────────────────────────────────────

/// `indent[annotations ]var name[: Type][ = value]`.
pub open spec fn decl_head(indent: Seq<char>, prefix: Seq<char>, name: Seq<char>, ty: Option<Seq<char>>, val: Option<Seq<char>>) -> Seq<char> {
    indent + (if prefix.len() > 0 {
        prefix + " "@
    } else {
        Seq::empty()
    }) + "var "@ + name + (match ty {
        Some(t) => ": "@ + t,
        None => Seq::empty(),
    }) + (match val {
        Some(v) => " = "@ + v,
        None => Seq::empty(),
    })
}

/// The variable with inline `set(value):` and `get:` blocks.
pub open spec fn inline_accessors(indent: Seq<char>, prefix: Seq<char>, name: Seq<char>, ty: Option<Seq<char>>, val: Option<Seq<char>>) -> Seq<char> {
    decl_head(indent, prefix, name, ty, val) + ":\n"@ + indent + "\tset(value):\n"@ + indent + "\t\t"@
        + name + " = value\n"@ + indent + "\tget:\n"@ + indent + "\t\treturn "@ + name
}

/// The backing field `_name` with `_get_name()` and `_set_name(value)` functions.
pub open spec fn backing_accessors(indent: Seq<char>, prefix: Seq<char>, name: Seq<char>, ty: Option<Seq<char>>, val: Option<Seq<char>>) -> Seq<char> {
    let backing = "_"@ + name;
    decl_head(indent, prefix, backing, ty, val) + "\n\n"@ + indent + "func _get_"@ + name + "()"@ + (match ty {
        Some(t) => " -> "@ + t,
        None => Seq::empty(),
    }) + ":\n"@ + indent + "\treturn "@ + backing + "\n\n"@ + indent + "func _set_"@ + name + "(value"@ + (match ty {
        Some(t) => ": "@ + t,
        None => Seq::empty(),
    }) + ") -> void:\n"@ + indent + "\t"@ + backing + " = value"@
}

/// The accessors generated for a variable declaration.
pub open spec fn accessors(src: Seq<char>, n: SyntaxNode, name: Seq<char>, backing: bool) -> Seq<char> {
    let indent = indent_of(nth_line(src, n.start_row as int));
    let prefix = annotation_prefix(n, src);
    if backing {
        backing_accessors(indent, prefix, name, type_text(n, src), value_text(n, src))
    } else {
        inline_accessors(indent, prefix, name, type_text(n, src), value_text(n, src))
    }
}

/// The source with the declaration's lines (from the start of its first line
/// through the line feed after it) replaced by `rep` and a line feed.
pub open spec fn with_declaration(src: Seq<char>, n: SyntaxNode, rep: Seq<char>) -> Seq<char> {
    let b = encode_utf8(src);
    text_between(src, 0, line_offset(b, n.start_row as int)) + rep + "\n"@ + text_between(
        src,
        end_with_nl(src, n),
        b.len() as int,
    )
}

fn push_opt(out: &mut String, lead: &str, o: &Option<String>)
    ensures
        final(out)@ == old(out)@ + match o {
            Some(t) => lead@ + t@,
            None => Seq::empty(),
        },
{
    match o {
        Some(t) => {
            push_str(out, lead);
            push_str(out, t.as_str());
        },
        None => {
            assert(old(out)@ + Seq::<char>::empty() =~= old(out)@);
        },
    }
}

fn head_text(indent: &String, prefix: &String, name: &str, ty: &Option<String>, val: &Option<String>) -> (r: String)
    ensures
        r@ == decl_head(indent@, prefix@, name@, crate::text::opt_view(*ty), crate::text::opt_view(*val)),
{
    let mut d = String::new();
    push_str(&mut d, indent.as_str());
    if prefix.as_str().unicode_len() > 0 {
        push_str(&mut d, prefix.as_str());
        push_str(&mut d, " ");
    } else {
        assert(d@ + Seq::<char>::empty() =~= d@);
    }
    push_str(&mut d, "var ");
    push_str(&mut d, name);
    push_opt(&mut d, ": ", ty);
    push_opt(&mut d, " = ", val);
    d
}

fn replace_declaration(source: &str, node: &SyntaxNode, rep: &str) -> (r: String)
    requires
        span_ok(source@, node.start_byte as int, node.end_byte as int),
    ensures
        r@ == with_declaration(source@, *node, rep@),
{
    let start = line_byte_offset(source, node.start_row);
    let end = node_end_with_newline(source, node);
    let n = source.as_bytes().len();
    proof {
        let b = source.spec_bytes();
        lemma_nl_starts(b);
        lemma_nl_starts_boundary(source@);
        encode_utf8_valid_utf8(source@);
        is_char_boundary_start_end_of_seq(b);
        if (node.start_row as int) < nl_starts(b).len() {
            assert(span_ok(source@, nl_starts(b)[node.start_row as int] as int, b.len() as int));
        }
    }
    let head = slice_str(source, 0, start);
    let tail = slice_str(source, end, n);
    let mut out = String::new();
    push_str(&mut out, head.as_str());
    push_str(&mut out, rep);
    push_str(&mut out, "\n");
    push_str(&mut out, tail.as_str());
    out
}

/// Replace the declaration with an inline-accessor property.
pub fn generate_inline_accessors(source: &str, var_node: &SyntaxNode, name: &str) -> (r: String)
    requires
        tree_ok(source@, *var_node),
    ensures
        r@ == with_declaration(source@, *var_node, accessors(source@, *var_node, name@, false)),
{
    let ty = extract_type_text(var_node, source);
    let val = value_of(var_node, source);
    let prefix = get_annotation_prefix(var_node, source);
    let indent = get_var_indent(source, var_node.start_row);
    let mut rep = head_text(&indent, &prefix, name, &ty, &val);
    push_str(&mut rep, ":\n");
    push_str(&mut rep, indent.as_str());
    push_str(&mut rep, "\tset(value):\n");
    push_str(&mut rep, indent.as_str());
    push_str(&mut rep, "\t\t");
    push_str(&mut rep, name);
    push_str(&mut rep, " = value\n");
    push_str(&mut rep, indent.as_str());
    push_str(&mut rep, "\tget:\n");
    push_str(&mut rep, indent.as_str());
    push_str(&mut rep, "\t\treturn ");
    push_str(&mut rep, name);
    replace_declaration(source, var_node, rep.as_str())
}

/// Replace the declaration with a backing field and getter/setter functions.
pub fn generate_backing_field(source: &str, var_node: &SyntaxNode, name: &str) -> (r: String)
    requires
        tree_ok(source@, *var_node),
    ensures
        r@ == with_declaration(source@, *var_node, accessors(source@, *var_node, name@, true)),
{
    let ty = extract_type_text(var_node, source);
    let val = value_of(var_node, source);
    let prefix = get_annotation_prefix(var_node, source);
    let indent = get_var_indent(source, var_node.start_row);
    let mut backing = String::from_str("_");
    push_str(&mut backing, name);
    let mut rep = head_text(&indent, &prefix, backing.as_str(), &ty, &val);
    push_str(&mut rep, "\n\n");
    push_str(&mut rep, indent.as_str());
    push_str(&mut rep, "func _get_");
    push_str(&mut rep, name);
    push_str(&mut rep, "()");
    push_opt(&mut rep, " -> ", &ty);
    push_str(&mut rep, ":\n");
    push_str(&mut rep, indent.as_str());
    push_str(&mut rep, "\treturn ");
    push_str(&mut rep, backing.as_str());
    push_str(&mut rep, "\n\n");
    push_str(&mut rep, indent.as_str());
    push_str(&mut rep, "func _set_");
    push_str(&mut rep, name);
    push_str(&mut rep, "(value");
    push_opt(&mut rep, ": ", &ty);
    push_str(&mut rep, ") -> void:\n");
    push_str(&mut rep, indent.as_str());
    push_str(&mut rep, "\t");
    push_str(&mut rep, backing.as_str());
    push_str(&mut rep, " = value");
    replace_declaration(source, var_node, rep.as_str())
}

impl EncapsulateError {
    /// The message shown to the user.
    pub fn message(&self) -> (r: String)
        ensures
            r@ == match self {
                EncapsulateError::NotFound(n) => "variable '"@ + n@ + "' not found"@,
                EncapsulateError::NotVariable(n) => "'"@ + n@ + "' is not a variable declaration"@,
                EncapsulateError::Constant => "cannot encapsulate a constant"@,
                EncapsulateError::HasAccessors(n) => "'"@ + n@ + "' already has set/get accessors"@,
                EncapsulateError::BackingExists(b) => "variable '"@ + b@
                    + "' already exists \u{2014} cannot create backing field"@,
            },
    {
        let mut r = String::new();
        match self {
            EncapsulateError::NotFound(n) => {
                push_str(&mut r, "variable '");
                push_str(&mut r, n.as_str());
                push_str(&mut r, "' not found");
            },
            EncapsulateError::NotVariable(n) => {
                push_str(&mut r, "'");
                push_str(&mut r, n.as_str());
                push_str(&mut r, "' is not a variable declaration");
            },
            EncapsulateError::Constant => {
                push_str(&mut r, "cannot encapsulate a constant");
            },
            EncapsulateError::HasAccessors(n) => {
                push_str(&mut r, "'");
                push_str(&mut r, n.as_str());
                push_str(&mut r, "' already has set/get accessors");
            },
            EncapsulateError::BackingExists(b) => {
                push_str(&mut r, "variable '");
                push_str(&mut r, b.as_str());
                push_str(&mut r, "' already exists \u{2014} cannot create backing field");
            },
        }
        r
    }
}

// ── The refactoring ────────────────────────────────────────────────────────

/// The declaration to encapsulate is found, is a `var`, and is not constant.
pub open spec fn encapsulable(root: SyntaxNode, src: Seq<char>, name: Seq<char>, n: SyntaxNode) -> bool {
    &&& named_decl(root, src, name) == Some(n)
    &&& n.kind@ == "variable_statement"@
    &&& !const_child(n)
}

/// What looking for the variable to encapsulate gives: see
/// `find_encapsulation_target`.
pub open spec fn target_outcome(root: SyntaxNode, src: Seq<char>, name: Seq<char>, r: Result<SyntaxNode, EncapsulateError>) -> bool {
    match r {
        Ok(n) => encapsulable(root, src, name, n) && tree_ok(src, n),
        Err(EncapsulateError::NotFound(m)) => m@ == name && named_decl(root, src, name) is None,
        Err(EncapsulateError::NotVariable(m)) => m@ == name && (named_decl(root, src, name) matches Some(n)
            && n.kind@ != "variable_statement"@),
        Err(EncapsulateError::Constant) => (named_decl(root, src, name) matches Some(n)
            && n.kind@ == "variable_statement"@ && const_child(n)),
        Err(_) => false,
    }
}

/// Find the variable to encapsulate.
pub fn find_encapsulation_target<'a>(root: &'a SyntaxNode, source: &str, name: &str) -> (r: Result<&'a SyntaxNode, EncapsulateError>)
    requires
        tree_ok(source@, *root),
    ensures
        target_outcome(*root, source@, name@, match r {
            Ok(n) => Ok(*n),
            Err(e) => Err(e),
        }),
{
    let n = match find_top_decl(root, source, name) {
        Some(n) => n,
        None => {
            return Err(EncapsulateError::NotFound(String::from_str(name)));
        },
    };
    if !kind_is(n, "variable_statement") {
        return Err(EncapsulateError::NotVariable(String::from_str(name)));
    }
    if has_const_keyword(n) {
        return Err(EncapsulateError::Constant);
    }
    Ok(n)
}

/// The warnings about accessor functions that a backing-field encapsulation
/// overwrites.
pub open spec fn overwrite_warnings(root: SyntaxNode, src: Seq<char>, name: Seq<char>) -> Seq<Seq<char>> {
    let getter = "_get_"@ + name;
    let setter = "_set_"@ + name;
    (if named_decl(root, src, getter) is Some {
        seq!["function '"@ + getter + "' already exists \u{2014} will be overwritten"@]
    } else {
        Seq::empty()
    }) + (if named_decl(root, src, setter) is Some {
        seq!["function '"@ + setter + "' already exists \u{2014} will be overwritten"@]
    } else {
        Seq::empty()
    })
}

/// A planned encapsulation.
pub struct EncapsulatePlan {
    pub new_source: String,
    pub warnings: Vec<String>,
}

fn overwrite_warning(out: &mut Vec<String>, f: &String)
    ensures
        final(out)@.len() == old(out)@.len() + 1,
        forall|i: int| 0 <= i < old(out)@.len() ==> final(out)@[i] == old(out)@[i],
        final(out)@.last()@ == "function '"@ + f@ + "' already exists \u{2014} will be overwritten"@,
{
    let mut w = String::from_str("function '");
    push_str(&mut w, f.as_str());
    push_str(&mut w, "' already exists \u{2014} will be overwritten");
    out.push(w);
}

/// What planning the accessors gives: see `plan_encapsulation`.
pub open spec fn encapsulation_outcome(src: Seq<char>, root: SyntaxNode, var_node: SyntaxNode, name: Seq<char>, backing_field: bool, r: Result<EncapsulatePlan, EncapsulateError>) -> bool {
    match r {
        Ok(p) => {
            &&& !setget_present(var_node, src)
            &&& backing_field ==> named_decl(root, src, "_"@ + name) is None
            &&& p.new_source@ == with_declaration(src, var_node, accessors(src, var_node, name, backing_field))
            &&& p.warnings@.map_values(|w: String| w@) == if backing_field {
                overwrite_warnings(root, src, name)
            } else {
                Seq::empty()
            }
        },
        Err(EncapsulateError::HasAccessors(m)) => m@ == name && setget_present(var_node, src),
        Err(EncapsulateError::BackingExists(b)) => backing_field && !setget_present(var_node, src)
            && b@ == "_"@ + name && named_decl(root, src, b@) is Some,
        Err(_) => false,
    }
}

/// Encapsulate a variable found by [`find_encapsulation_target`]: refused
/// when it already has accessors, or (with a backing field) when `_name` is
/// taken; warns about accessor functions that will be overwritten.
#[verifier::rlimit(60)]
pub fn plan_encapsulation(source: &str, root: &SyntaxNode, var_node: &SyntaxNode, name: &str, backing_field: bool) -> (r: Result<EncapsulatePlan, EncapsulateError>)
    requires
        tree_ok(source@, *root),
        tree_ok(source@, *var_node),
    ensures
        encapsulation_outcome(source@, *root, *var_node, name@, backing_field, r),
{
    if has_setget(var_node, source) {
        return Err(EncapsulateError::HasAccessors(String::from_str(name)));
    }
    let mut warnings: Vec<String> = Vec::new();
    if backing_field {
        let mut getter = String::from_str("_get_");
        push_str(&mut getter, name);
        let mut setter = String::from_str("_set_");
        push_str(&mut setter, name);
        let mut backing = String::from_str("_");
        push_str(&mut backing, name);
        let ghost g = getter@;
        let ghost st = setter@;
        if find_top_decl(root, source, getter.as_str()).is_some() {
            overwrite_warning(&mut warnings, &getter);
        }
        let ghost w1 = warnings@.map_values(|w: String| w@);
        if find_top_decl(root, source, setter.as_str()).is_some() {
            overwrite_warning(&mut warnings, &setter);
        }
        assert(warnings@.map_values(|w: String| w@) =~= overwrite_warnings(*root, source@, name@));
        if find_top_decl(root, source, backing.as_str()).is_some() {
            return Err(EncapsulateError::BackingExists(backing));
        }
        let new_source = generate_backing_field(source, var_node, name);
        Ok(EncapsulatePlan { new_source, warnings })
    } else {
        assert(warnings@.map_values(|w: String| w@) =~= Seq::<Seq<char>>::empty());
        let new_source = generate_inline_accessors(source, var_node, name);
        Ok(EncapsulatePlan { new_source, warnings })
    }
}

/// Encapsulate a variable in a source text, parsing it first: its 1-based
/// line and the plan. `None` when the parser gives no tree that fits the
/// text.
pub fn plan_encapsulation_in(source: &str, name: &str, backing_field: bool) -> (r: Option<Result<(u32, EncapsulatePlan), EncapsulateError>>)
    ensures
        r is None <==> fitting_tree(source@) is None,
        r matches Some(x) ==> match x {
            Ok((line, p)) => named_decl(fitting_tree(source@)->0, source@, name@) matches Some(n) && target_outcome(
                fitting_tree(source@)->0,
                source@,
                name@,
                Ok(n),
            ) && line == (n.start_row as u32).wrapping_add(1) && encapsulation_outcome(
                source@,
                fitting_tree(source@)->0,
                n,
                name@,
                backing_field,
                Ok(p),
            ),
            Err(e) => (named_decl(fitting_tree(source@)->0, source@, name@) matches Some(n) && target_outcome(
                fitting_tree(source@)->0,
                source@,
                name@,
                Ok(n),
            ) && encapsulation_outcome(source@, fitting_tree(source@)->0, n, name@, backing_field, Err(e))) || target_outcome(
                fitting_tree(source@)->0,
                source@,
                name@,
                Err(e),
            ),
        },
{
    let root = match parse_fitting(source) {
        Some(t) => t,
        None => {
            return None;
        },
    };
    let var = match find_encapsulation_target(&root, source, name) {
        Ok(v) => v,
        Err(e) => {
            return Some(Err(e));
        },
    };
    let line = (var.start_row as u32).wrapping_add(1);
    match plan_encapsulation(source, &root, var, name, backing_field) {
        Ok(p) => Some(Ok((line, p))),
        Err(e) => Some(Err(e)),
    }
}

} // verus!
