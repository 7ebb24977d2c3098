//! Inline-method: replace a call with the called function's body.
use vstd::prelude::*;
use vstd::string::StringSliceAdditionalSpecFns;
use vstd::utf8::encode_utf8;

use crate::refactor::change_signature::ParamInfo;
use crate::refactor::delete_symbol::ReferenceHit;
use crate::refactor::move_symbol::{callee, callee_index, count_external, external_count};
use crate::refactor::{nl_starts, reindent_ok, reindented, re_indent_with, str_eq};
use crate::syntax::{
    SyntaxNode, child, child_by_field_name, field_child, first_child_of_kind, first_where,
    kind_child, kind_is, lemma_first_where, lemma_first_where_none, node_text, slice_str, span_ok,
    text_between, text_of, tree_ok, well_nested,
};
use crate::assoc::TextMap;
use crate::text::{
    chars_of, concat_strs, concat_views, decimal, decimal_string, extend, has_prefix, indent_of, join,
    join_lines, lines, lines_of, nth_line, opt_view, starts_with, string_of, trim_start, trimmed_start,
    occurs_at, matches_at,
};

use crate::parse::{chain_at, fitting_tree, nodes_at, parse_fitting};

verus! {

/// What an inline-method run reports.
pub struct InlineMethodOutput {
    pub function: String,
    pub call_site_file: String,
    pub call_site_line: u32,
    pub inlined_lines: u32,
    pub function_deleted: bool,
    pub applied: bool,
    pub source_file: Option<String>,
    pub warnings: Vec<String>,
}

/// What an inline-method-by-name run reports.
pub struct InlineMethodByNameOutput {
    pub function: String,
    pub file: String,
    pub call_sites_inlined: u32,
    pub function_deleted: bool,
    pub applied: bool,
    pub warnings: Vec<String>,
}

/// ASCII letter, digit or underscore.
pub open spec fn ident_byte(b: u8) -> bool {
    (48 <= b <= 57) || (65 <= b <= 90) || (97 <= b <= 122) || b == 95
}

/// Check if a byte is a valid GDScript identifier character.
pub fn is_ident_char(b: u8) -> (r: bool)
    ensures
        r == ident_byte(b),
{
    (48 <= b && b <= 57) || (65 <= b && b <= 90) || (97 <= b && b <= 122) || b == 95
}

/// The bytes `p` occur in `b` at `i`.
pub open spec fn bytes_at(b: Seq<u8>, i: int, p: Seq<u8>) -> bool {
    0 <= i && i + p.len() <= b.len() && b.subrange(i, i + p.len()) == p
}

/// An ASCII letter, digit or underscore.
pub open spec fn ident_char(c: char) -> bool {
    ('0' <= c <= '9') || ('A' <= c <= 'Z') || ('a' <= c <= 'z') || c == '_'
}

fn is_ident(c: char) -> (r: bool)
    ensures
        r == ident_char(c),
{
    ('0' <= c && c <= '9') || ('A' <= c && c <= 'Z') || ('a' <= c && c <= 'z') || c == '_'
}

/// `self` at `i` is not preceded by an identifier character.
pub open spec fn self_starts_word(s: Seq<char>, i: int) -> bool {
    i == 0 || !ident_char(s[i - 1])
}

/// The text from position `i` on, with `self` references replaced by
/// `receiver`: `self.` becomes `receiver.`; a bare `self` word becomes
/// `receiver`; every other character is kept.
pub open spec fn self_replaced(s: Seq<char>, receiver: Seq<char>, i: int) -> Seq<char>
    decreases s.len() - i,
{
    if i < 0 || i >= s.len() {
        Seq::empty()
    } else if occurs_at(s, seq!['s', 'e', 'l', 'f', '.'], i) && self_starts_word(s, i) {
        receiver + seq!['.'] + self_replaced(s, receiver, i + 5)
    } else if occurs_at(s, seq!['s', 'e', 'l', 'f'], i) && self_starts_word(s, i) && (i + 4 >= s.len() || !ident_char(s[i + 4])) {
        receiver + self_replaced(s, receiver, i + 4)
    } else {
        seq![s[i]] + self_replaced(s, receiver, i + 1)
    }
}

/// `b[i..].starts_with(p)`.
pub(crate) fn bytes_match(b: &[u8], i: usize, p: &[u8]) -> (r: bool)
    ensures
        r == bytes_at(b@, i as int, p@),
{
    if i > b.len() || p.len() > b.len() - i {
        return false;
    }
    let mut j: usize = 0;
    while j < p.len()
        invariant
            i + p@.len() <= b@.len(),
            b@.len() <= usize::MAX,
            j <= p@.len(),
            forall|k: int| 0 <= k < j ==> b@[i + k] == p@[k],
        decreases p@.len() - j,
    {
        if b[i + j] != p[j] {
            assert(b@.subrange(i as int, i + p@.len())[j as int] != p@[j as int]);
            return false;
        }
        j += 1;
    }
    assert(b@.subrange(i as int, i + p@.len()) =~= p@);
    true
}

/// Replace `self.` references in inlined text with the receiver expression.
/// For example, if receiver is `enemy`, then `self.health` -> `enemy.health`.
pub fn replace_self_references(text: &str, receiver: &str) -> (r: String)
    ensures
        r@ == self_replaced(text@, receiver@, 0),
{
    let t = chars_of(text);
    let rc = chars_of(receiver);
    let self_dot = chars_of("self.");
    let self_word = chars_of("self");
    proof {
        reveal_strlit("self.");
        reveal_strlit("self");
    }
    assert(self_dot@ =~= seq!['s', 'e', 'l', 'f', '.']);
    assert(self_word@ =~= seq!['s', 'e', 'l', 'f']);
    let mut result: Vec<char> = Vec::new();
    let mut i: usize = 0;
    while i < t.len()
        invariant
            t@ == text@,
            rc@ == receiver@,
            self_dot@ == seq!['s', 'e', 'l', 'f', '.'],
            self_word@ == seq!['s', 'e', 'l', 'f'],
            i <= t@.len(),
            result@ + self_replaced(t@, receiver@, i as int) == self_replaced(t@, receiver@, 0),
        decreases t@.len() - i,
    {
        let boundary = i == 0 || !is_ident(t[i - 1]);
        if boundary && matches_at(&t, &self_dot, i) {
            let ghost old_res = result@;
            extend(&mut result, &rc);
            result.push('.');
            assert(result@ + self_replaced(t@, receiver@, i + 5) =~= old_res + self_replaced(t@, receiver@, i as int));
            i += 5;
            continue;
        }
        if boundary && matches_at(&t, &self_word, i) && (i + 4 >= t.len() || !is_ident(t[i + 4])) {
            let ghost old_res = result@;
            extend(&mut result, &rc);
            assert(result@ + self_replaced(t@, receiver@, i + 4) =~= old_res + self_replaced(t@, receiver@, i as int));
            i += 4;
            continue;
        }
        let ghost old_res = result@;
        result.push(t[i]);
        assert(result@ + self_replaced(t@, receiver@, i + 1) =~= old_res + self_replaced(t@, receiver@, i as int));
        i += 1;
    }
    assert(result@ =~= self_replaced(t@, receiver@, 0));
    string_of(&result)
}

/// Re-indent text to match a target indent string (preserves relative indentation).
pub fn re_indent_to_depth_with_indent(text: &str, target_indent: &str) -> (r: String)
    requires
        reindent_ok(text@),
    ensures
        r@ == reindented(text@, target_indent@),
{
    let t = chars_of(target_indent);
    re_indent_with(text, &t)
}

/// Get the indentation string (tabs/spaces) of a line (0-based).
pub fn get_indent(source: &str, line: usize) -> (r: String)
    ensures
        r@ == indent_of(nth_line(source@, line as int)),
{
    crate::refactor::extract_method::get_indent(source, line)
}

// ── Locating the call ──────────────────────────────────────────────────────

/// The node has a direct `attribute_call` child.
pub open spec fn has_attr_call(n: SyntaxNode) -> bool {
    kind_child(n, "attribute_call"@) is Some
}

/// A bare call, or an attribute node that calls a method (`obj.method()`).
pub open spec fn call_like(n: SyntaxNode) -> bool {
    n.kind@ == "call"@ || (n.kind@ == "attribute"@ && has_attr_call(n))
}

/// Check if a node has a direct `attribute_call` child.
pub fn has_attribute_call_child(node: &SyntaxNode) -> (r: bool)
    ensures
        r == has_attr_call(*node),
{
    first_child_of_kind(node, "attribute_call").is_some()
}

/// Find a `call` or attribute method call node at a point, given the nodes
/// that contain the point from the innermost outwards: the first call-like one.
pub fn find_call_at(chain: &[SyntaxNode]) -> (r: Option<usize>)
    ensures
        match r {
            Some(i) => i < chain@.len() && first_where(chain@, |n: SyntaxNode| call_like(n)) == Some(i as int),
            None => first_where(chain@, |n: SyntaxNode| call_like(n)) is None,
        },
{
    let ghost p = |n: SyntaxNode| call_like(n);
    let mut i: usize = 0;
    while i < chain.len()
        invariant
            i <= chain@.len(),
            p == (|n: SyntaxNode| call_like(n)),
            forall|j: int| 0 <= j < i ==> !p(#[trigger] chain@[j]),
        decreases chain@.len() - i,
    {
        let n = &chain[i];
        if kind_is(n, "call") || (kind_is(n, "attribute") && has_attribute_call_child(n)) {
            proof {
                lemma_first_where(chain@, p, i as int);
            }
            return Some(i);
        }
        i += 1;
    }
    proof {
        lemma_first_where_none(chain@, p);
    }
    None
}

// ── Returns and recursion ──────────────────────────────────────────────────

/// The number of `return_statement` nodes in a subtree.
pub open spec fn returns_in(n: SyntaxNode) -> nat
    decreases n, n.children@.len() + 1,
{
    (if n.kind@ == "return_statement"@ {
        1nat
    } else {
        0nat
    }) + returns_in_children(n, n.children@.len() as int)
}

/// The number of `return_statement` nodes under the first `k` children.
pub open spec fn returns_in_children(n: SyntaxNode, k: int) -> nat
    decreases n, k,
{
    if k <= 0 || k > n.children@.len() {
        0
    } else {
        returns_in_children(n, k - 1) + returns_in(n.children@[k - 1])
    }
}

/// `a`, but never more than 2.
pub open spec fn cap2(a: int) -> int {
    if a > 2 {
        2
    } else {
        a
    }
}

/// Count return statements in a subtree, adding to `count`; the count stops
/// at 2, which is all that "more than one" needs.
pub fn count_return_statements(node: &SyntaxNode, count: &mut usize)
    requires
        *old(count) <= 2,
    ensures
        *final(count) == cap2(*old(count) + returns_in(*node)),
    decreases node,
{
    let ghost c0 = *count;
    if kind_is(node, "return_statement") && *count < 2 {
        *count = *count + 1;
    }
    let ghost own: nat = if node.kind@ == "return_statement"@ { 1 } else { 0 };
    let mut i: usize = 0;
    while i < node.children.len()
        invariant
            i <= node.children@.len(),
            own == (if node.kind@ == "return_statement"@ { 1nat } else { 0nat }),
            *count == cap2(c0 + own + returns_in_children(*node, i as int)),
        decreases node.children@.len() - i,
    {
        count_return_statements(&node.children[i], count);
        i += 1;
    }
}

/// The node is a `call` whose callee reads `name`.
pub open spec fn own_call_to(n: SyntaxNode, src: Seq<char>, name: Seq<char>) -> bool {
    n.kind@ == "call"@ && (callee(n) matches Some(f) && text_of(src, f) == name)
}

/// A `call` node in a subtree whose callee reads `name`.
pub open spec fn calls_name(n: SyntaxNode, src: Seq<char>, name: Seq<char>) -> bool
    decreases n, n.children@.len() + 1,
{
    own_call_to(n, src, name) || calls_name_in_children(n, src, name, n.children@.len() as int)
}

/// Such a call under the first `k` children.
pub open spec fn calls_name_in_children(n: SyntaxNode, src: Seq<char>, name: Seq<char>, k: int) -> bool
    decreases n, k,
{
    if k <= 0 || k > n.children@.len() {
        false
    } else {
        calls_name_in_children(n, src, name, k - 1) || calls_name(n.children@[k - 1], src, name)
    }
}

proof fn lemma_calls_in_children_grow(n: SyntaxNode, src: Seq<char>, name: Seq<char>, k: int, m: int)
    requires
        0 <= k <= m <= n.children@.len(),
        calls_name_in_children(n, src, name, k),
    ensures
        calls_name_in_children(n, src, name, m),
    decreases m - k,
{
    if k < m {
        lemma_calls_in_children_grow(n, src, name, k, m - 1);
    }
}

/// Check if a node contains a call to a function with the given name.
pub fn contains_call_to(node: &SyntaxNode, name: &str, source: &str) -> (r: bool)
    requires
        tree_ok(source@, *node),
    ensures
        r == calls_name(*node, source@, name@),
    decreases node,
{
    if kind_is(node, "call") {
        match callee_index(node) {
            Some(ci) => {
                assert(tree_ok(source@, node.children@[ci as int]));
                let t = node_text(&node.children[ci], source);
                if str_eq(t.as_str(), name) {
                    return true;
                }
            },
            None => {},
        }
    }
    let mut i: usize = 0;
    while i < node.children.len()
        invariant
            i <= node.children@.len(),
            tree_ok(source@, *node),
            !own_call_to(*node, source@, name@),
            !calls_name_in_children(*node, source@, name@, i as int),
        decreases node.children@.len() - i,
    {
        assert(tree_ok(source@, node.children@[i as int]));
        if contains_call_to(&node.children[i], name, source) {
            proof {
                lemma_calls_in_children_grow(*node, source@, name@, i + 1, node.children@.len() as int);
            }
            return true;
        }
        i += 1;
    }
    false
}

// ── Arguments and parameters ───────────────────────────────────────────────

/// The node that holds a call's arguments: for an attribute call its
/// `attribute_call` child, else the call itself.
pub open spec fn arg_holder(call: SyntaxNode) -> Option<SyntaxNode> {
    if call.kind@ == "attribute"@ {
        match kind_child(call, "attribute_call"@) {
            Some(i) => Some(call.children@[i]),
            None => None,
        }
    } else {
        Some(call)
    }
}

/// A named child that is an argument (not a bracket or comma).
pub open spec fn is_arg(c: SyntaxNode) -> bool {
    c.is_named && c.kind@ != "("@ && c.kind@ != ")"@ && c.kind@ != ","@
}

/// The texts of the argument nodes among the first `k` of `cs`.
pub open spec fn arg_texts(cs: Seq<SyntaxNode>, src: Seq<char>, k: int) -> Seq<Seq<char>>
    decreases k,
{
    if k <= 0 || k > cs.len() {
        Seq::empty()
    } else {
        arg_texts(cs, src, k - 1) + if is_arg(cs[k - 1]) {
            seq![text_of(src, cs[k - 1])]
        } else {
            Seq::empty()
        }
    }
}

/// The argument texts of a call, in order; none when it has no argument list.
pub open spec fn call_args(call: SyntaxNode, src: Seq<char>) -> Seq<Seq<char>> {
    match arg_holder(call) {
        Some(h) => match field_child(h, "arguments"@) {
            Some(a) => arg_texts(a.children@, src, a.children@.len() as int),
            None => Seq::empty(),
        },
        None => Seq::empty(),
    }
}

/// The texts of a list of strings.
pub open spec fn string_texts(v: Seq<String>) -> Seq<Seq<char>> {
    v.map_values(|s: String| s@)
}

fn arguments_of(args: &SyntaxNode, source: &str) -> (r: Vec<String>)
    requires
        tree_ok(source@, *args),
    ensures
        string_texts(r@) == arg_texts(args.children@, source@, args.children@.len() as int),
{
    let mut out: Vec<String> = Vec::new();
    let mut i: usize = 0;
    while i < args.children.len()
        invariant
            i <= args.children@.len(),
            tree_ok(source@, *args),
            string_texts(out@) == arg_texts(args.children@, source@, i as int),
        decreases args.children@.len() - i,
    {
        let c = &args.children[i];
        assert(tree_ok(source@, *c));
        let ghost before = string_texts(out@);
        if c.is_named && !kind_is(c, "(") && !kind_is(c, ")") && !kind_is(c, ",") {
            out.push(node_text(c, source));
            assert(string_texts(out@) =~= before + seq![text_of(source@, *c)]);
        } else {
            assert(string_texts(out@) =~= before + Seq::<Seq<char>>::empty());
        }
        i += 1;
    }
    out
}

/// Extract argument text strings from a call node, bare or attribute.
pub fn extract_call_arguments(call: &SyntaxNode, source: &str) -> (r: Vec<String>)
    requires
        tree_ok(source@, *call),
    ensures
        string_texts(r@) == call_args(*call, source@),
{
    let holder: &SyntaxNode = if kind_is(call, "attribute") {
        match first_child_of_kind(call, "attribute_call") {
            Some(i) => {
                assert(tree_ok(source@, call.children@[i as int]));
                &call.children[i]
            },
            None => {
                let e: Vec<String> = Vec::new();
                assert(string_texts(e@) =~= Seq::<Seq<char>>::empty());
                return e;
            },
        }
    } else {
        call
    };
    match child_by_field_name(holder, "arguments") {
        Some(a) => {
            assert(tree_ok(source@, *a));
            arguments_of(a, source)
        },
        None => {
            let e: Vec<String> = Vec::new();
            assert(string_texts(e@) =~= Seq::<Seq<char>>::empty());
            e
        },
    }
}

/// The text of a node's child in field `f`, if it has one.
pub open spec fn field_text(n: SyntaxNode, f: Seq<char>, src: Seq<char>) -> Option<Seq<char>> {
    match field_child(n, f) {
        Some(c) => Some(text_of(src, c)),
        None => None,
    }
}

/// A parameter as plain values: name, type hint, default.
pub open spec fn param_view(p: ParamInfo) -> (Seq<char>, Option<Seq<char>>, Option<Seq<char>>) {
    (p.name@, opt_view(p.type_hint), opt_view(p.default))
}

/// The parameter a child of a parameter list declares, if it declares one.
pub open spec fn param_of(c: SyntaxNode, src: Seq<char>) -> Option<(Seq<char>, Option<Seq<char>>, Option<Seq<char>>)> {
    if c.kind@ == "identifier"@ {
        Some((text_of(src, c), None, None))
    } else if c.kind@ == "typed_parameter"@ || c.kind@ == "default_parameter"@ || c.kind@
        == "typed_default_parameter"@ {
        match child(c, 0) {
            Some(n0) => Some(
                (
                    text_of(src, n0),
                    if c.kind@ == "default_parameter"@ {
                        None
                    } else {
                        field_text(c, "type"@, src)
                    },
                    if c.kind@ == "typed_parameter"@ {
                        None
                    } else {
                        field_text(c, "value"@, src)
                    },
                ),
            ),
            None => None,
        }
    } else {
        None
    }
}

/// The parameters declared by the first `k` children of a parameter list.
pub open spec fn params_in(cs: Seq<SyntaxNode>, src: Seq<char>, k: int) -> Seq<(Seq<char>, Option<Seq<char>>, Option<Seq<char>>)>
    decreases k,
{
    if k <= 0 || k > cs.len() {
        Seq::empty()
    } else {
        params_in(cs, src, k - 1) + match param_of(cs[k - 1], src) {
            Some(p) => seq![p],
            None => Seq::empty(),
        }
    }
}

/// A function's parameters, in order.
pub open spec fn func_params(func: SyntaxNode, src: Seq<char>) -> Seq<(Seq<char>, Option<Seq<char>>, Option<Seq<char>>)> {
    match field_child(func, "parameters"@) {
        Some(p) => params_in(p.children@, src, p.children@.len() as int),
        None => Seq::empty(),
    }
}

fn field_text_of(node: &SyntaxNode, f: &str, source: &str) -> (r: Option<String>)
    requires
        tree_ok(source@, *node),
    ensures
        opt_view(r) == field_text(*node, f@, source@),
{
    match child_by_field_name(node, f) {
        Some(c) => {
            assert(tree_ok(source@, *c));
            Some(node_text(c, source))
        },
        None => None,
    }
}

fn param_from(c: &SyntaxNode, source: &str) -> (r: Option<ParamInfo>)
    requires
        tree_ok(source@, *c),
    ensures
        match r {
            Some(p) => param_of(*c, source@) == Some(param_view(p)),
            None => param_of(*c, source@) is None,
        },
{
    if kind_is(c, "identifier") {
        return Some(ParamInfo { name: node_text(c, source), type_hint: None, default: None });
    }
    let typed = kind_is(c, "typed_parameter");
    let defaulted = kind_is(c, "default_parameter");
    let both = kind_is(c, "typed_default_parameter");
    if !(typed || defaulted || both) || c.children.len() == 0 {
        return None;
    }
    assert(tree_ok(source@, c.children@[0]));
    let name = node_text(&c.children[0], source);
    let type_hint = if defaulted {
        None
    } else {
        field_text_of(c, "type", source)
    };
    let default = if typed {
        None
    } else {
        field_text_of(c, "value", source)
    };
    Some(ParamInfo { name, type_hint, default })
}

/// Extract function parameter info from a function definition.
pub fn extract_function_params(func: &SyntaxNode, source: &str) -> (r: Vec<ParamInfo>)
    requires
        tree_ok(source@, *func),
    ensures
        r@.map_values(|p: ParamInfo| param_view(p)) == func_params(*func, source@),
{
    let mut out: Vec<ParamInfo> = Vec::new();
    let params = match child_by_field_name(func, "parameters") {
        Some(p) => p,
        None => {
            assert(out@.map_values(|p: ParamInfo| param_view(p)) =~= func_params(*func, source@));
            return out;
        },
    };
    assert(tree_ok(source@, *params));
    let mut i: usize = 0;
    while i < params.children.len()
        invariant
            i <= params.children@.len(),
            tree_ok(source@, *params),
            out@.map_values(|p: ParamInfo| param_view(p)) == params_in(params.children@, source@, i as int),
        decreases params.children@.len() - i,
    {
        let c = &params.children[i];
        assert(tree_ok(source@, *c));
        let ghost before = out@.map_values(|p: ParamInfo| param_view(p));
        match param_from(c, source) {
            Some(p) => {
                out.push(p);
                assert(out@.map_values(|p: ParamInfo| param_view(p)) =~= before + seq![param_of(*c, source@)->0]);
            },
            None => {
                assert(out@.map_values(|p: ParamInfo| param_view(p)) =~= before + Seq::<(Seq<char>, Option<Seq<char>>, Option<Seq<char>>)>::empty());
            },
        }
        i += 1;
    }
    out
}

// ── Errors ─────────────────────────────────────────────────────────────────

/// Why a call cannot be inlined.
#[derive(Debug)]
pub enum InlineError {
    /// No call at the given 1-based line and column.
    NoCallAt(usize, usize),
    NoFunctionName,
    AttributeCallee,
    NoReceiver,
    NoAttributeCall,
    NoMethodName,
    /// The receiver variable has no type annotation.
    UntypedReceiver(String),
    /// The node at the cursor is neither a call nor an attribute call.
    UnexpectedKind(String),
    NotAFunction(String),
    NoBody,
    EmptyBody,
    MultipleReturns,
    NonTrailingReturn,
    Recursive(String),
    /// No call of the named function in the file.
    NoCallSites(String),
}

/// The message of an inline error.
pub open spec fn inline_error_message(e: InlineError) -> Seq<char> {
    match e {
        InlineError::NoCallAt(l, c) => "no function call found at "@ + decimal(l as nat) + ":"@ + decimal(c as nat),
        InlineError::NoFunctionName => "cannot determine function name from call"@,
        InlineError::AttributeCallee => "cannot inline method calls via call node with attribute function"@,
        InlineError::NoReceiver => "cannot determine receiver object"@,
        InlineError::NoAttributeCall => "cannot find attribute_call in attribute node"@,
        InlineError::NoMethodName => "cannot determine method name from attribute call"@,
        InlineError::UntypedReceiver(v) => "cannot determine type of '"@ + v@
            + "' \u{2014} add a type annotation (var "@ + v@ + ": TypeName)"@,
        InlineError::UnexpectedKind(k) => "unexpected node kind '"@ + k@
            + "' \u{2014} expected call or attribute"@,
        InlineError::NotAFunction(n) => "'"@ + n@ + "' is not a function"@,
        InlineError::NoBody => "function has no body"@,
        InlineError::EmptyBody => "function body is empty"@,
        InlineError::MultipleReturns => "cannot inline function with multiple return statements"@,
        InlineError::NonTrailingReturn => "cannot inline function with non-trailing return statement"@,
        InlineError::Recursive(n) => "cannot inline recursive function '"@ + n@ + "'"@,
        InlineError::NoCallSites(n) => "no call sites for '"@ + n@ + "' found in this file"@,
    }
}

impl InlineError {
    /// The message shown to the user.
    pub fn message(&self) -> (r: String)
        ensures
            r@ == inline_error_message(*self),
    {
        let r = match self {
            InlineError::NoCallAt(l, c) => {
                let x = decimal_string(*l);
                let y = decimal_string(*c);
                concat_strs(&["no function call found at ", x.as_str(), ":", y.as_str()])
            },
            InlineError::NoFunctionName => concat_strs(&["cannot determine function name from call"]),
            InlineError::AttributeCallee => concat_strs(
                &["cannot inline method calls via call node with attribute function"],
            ),
            InlineError::NoReceiver => concat_strs(&["cannot determine receiver object"]),
            InlineError::NoAttributeCall => concat_strs(&["cannot find attribute_call in attribute node"]),
            InlineError::NoMethodName => concat_strs(&["cannot determine method name from attribute call"]),
            InlineError::UntypedReceiver(v) => concat_strs(
                &[
                    "cannot determine type of '",
                    v.as_str(),
                    "' \u{2014} add a type annotation (var ",
                    v.as_str(),
                    ": TypeName)",
                ],
            ),
            InlineError::UnexpectedKind(k) => concat_strs(
                &["unexpected node kind '", k.as_str(), "' \u{2014} expected call or attribute"],
            ),
            InlineError::NotAFunction(n) => concat_strs(&["'", n.as_str(), "' is not a function"]),
            InlineError::NoBody => concat_strs(&["function has no body"]),
            InlineError::EmptyBody => concat_strs(&["function body is empty"]),
            InlineError::MultipleReturns => concat_strs(&["cannot inline function with multiple return statements"]),
            InlineError::NonTrailingReturn => concat_strs(
                &["cannot inline function with non-trailing return statement"],
            ),
            InlineError::Recursive(n) => concat_strs(&["cannot inline recursive function '", n.as_str(), "'"]),
            InlineError::NoCallSites(n) => concat_strs(&["no call sites for '", n.as_str(), "' found in this file"]),
        };
        proof {
            reveal_with_fuel(concat_views, 6);
        }
        r
    }
}

// ── Call resolution ────────────────────────────────────────────────────────

/// Where a call's definition is to be found: the method's name, the receiver
/// text (none for a bare call), and the receiver's declared type when the
/// receiver is a variable other than `self`.
pub struct CallTarget {
    pub method_name: String,
    pub receiver_expr: Option<String>,
    pub receiver_type: Option<String>,
}

/// A node that declares `name`: a `var`/`const` statement named so, or a
/// typed parameter whose first child reads `name`.
pub open spec fn declares_var(n: SyntaxNode, src: Seq<char>, name: Seq<char>) -> bool {
    ((n.kind@ == "variable_statement"@ || n.kind@ == "const_statement"@) && field_text(n, "name"@, src)
        == Some(name)) || ((n.kind@ == "typed_parameter"@ || n.kind@ == "typed_default_parameter"@) && (
    child(n, 0) matches Some(c) && text_of(src, c) == name))
}

/// The type annotation of `name` found by a pre-order search: the first
/// declaring node (not searched below) that has a `type` child.
pub open spec fn var_type(n: SyntaxNode, src: Seq<char>, name: Seq<char>) -> Option<Seq<char>>
    decreases n, n.children@.len() + 1,
{
    if declares_var(n, src, name) {
        field_text(n, "type"@, src)
    } else {
        var_type_in_children(n, src, name, n.children@.len() as int)
    }
}

/// The first annotation found under the first `k` children.
pub open spec fn var_type_in_children(n: SyntaxNode, src: Seq<char>, name: Seq<char>, k: int) -> Option<Seq<char>>
    decreases n, k,
{
    if k <= 0 || k > n.children@.len() {
        None
    } else {
        match var_type_in_children(n, src, name, k - 1) {
            Some(t) => Some(t),
            None => var_type(n.children@[k - 1], src, name),
        }
    }
}

fn declares_var_exec(node: &SyntaxNode, source: &str, name: &str) -> (r: bool)
    requires
        tree_ok(source@, *node),
    ensures
        r == declares_var(*node, source@, name@),
{
    if kind_is(node, "variable_statement") || kind_is(node, "const_statement") {
        match field_text_of(node, "name", source) {
            Some(t) => {
                if str_eq(t.as_str(), name) {
                    return true;
                }
            },
            None => {},
        }
    }
    if (kind_is(node, "typed_parameter") || kind_is(node, "typed_default_parameter")) && node.children.len() > 0 {
        assert(tree_ok(source@, node.children@[0]));
        let t = node_text(&node.children[0], source);
        return str_eq(t.as_str(), name);
    }
    false
}

/// Find a variable's explicit type annotation (`var name: Type`, or a typed
/// parameter `name: Type`) anywhere in a subtree.
pub fn find_var_type_annotation(node: &SyntaxNode, var_name: &str, source: &str) -> (r: Option<String>)
    requires
        tree_ok(source@, *node),
    ensures
        opt_view(r) == var_type(*node, source@, var_name@),
    decreases node,
{
    if declares_var_exec(node, source, var_name) {
        return field_text_of(node, "type", source);
    }
    let mut i: usize = 0;
    while i < node.children.len()
        invariant
            i <= node.children@.len(),
            tree_ok(source@, *node),
            var_type_in_children(*node, source@, var_name@, i as int) is None,
            !declares_var(*node, source@, var_name@),
        decreases node.children@.len() - i,
    {
        assert(tree_ok(source@, node.children@[i as int]));
        let t = find_var_type_annotation(&node.children[i], var_name, source);
        if t.is_some() {
            proof {
                assert(var_type_in_children(*node, source@, var_name@, i + 1) == var_type(node.children@[i as int], source@, var_name@));
                lemma_var_type_found(*node, source@, var_name@, i + 1, node.children@.len() as int);
            }
            return t;
        }
        i += 1;
    }
    None
}

proof fn lemma_var_type_found(n: SyntaxNode, src: Seq<char>, name: Seq<char>, k: int, m: int)
    requires
        0 <= k <= m <= n.children@.len(),
        var_type_in_children(n, src, name, k) is Some,
    ensures
        var_type_in_children(n, src, name, m) == var_type_in_children(n, src, name, k),
    decreases m - k,
{
    if k < m {
        lemma_var_type_found(n, src, name, k, m - 1);
    }
}

/// The receiver and method-name nodes of an attribute call, or the message of the error.
pub open spec fn attr_parts(call: SyntaxNode) -> Result<(SyntaxNode, SyntaxNode), Seq<char>> {
    match crate::syntax::named_child(call, 0) {
        None => Err(inline_error_message(InlineError::NoReceiver)),
        Some(obj) => match kind_child(call, "attribute_call"@) {
            None => Err(inline_error_message(InlineError::NoAttributeCall)),
            Some(ai) => match crate::syntax::named_child(call.children@[ai], 0) {
                None => Err(inline_error_message(InlineError::NoMethodName)),
                Some(m) => Ok((obj, m)),
            },
        },
    }
}

/// The target of an attribute call `obj.method()`.
pub open spec fn attr_target(call: SyntaxNode, src: Seq<char>, root: SyntaxNode) -> Result<(Seq<char>, Option<Seq<char>>, Option<Seq<char>>), Seq<char>> {
    match attr_parts(call) {
        Err(e) => Err(e),
        Ok((obj, m)) => if text_of(src, obj) == "self"@ {
            Ok((text_of(src, m), Some("self"@), None))
        } else {
            match var_type(root, src, text_of(src, obj)) {
                Some(t) => Ok((text_of(src, m), Some(text_of(src, obj)), Some(t))),
                None => Err(
                    "cannot determine type of '"@ + text_of(src, obj) + "' \u{2014} add a type annotation (var "@
                        + text_of(src, obj) + ": TypeName)"@,
                ),
            }
        },
    }
}

/// The call's target, as far as the syntax tree shows it: method name,
/// receiver text, receiver type; or the message of the error.
pub open spec fn call_target(call: SyntaxNode, src: Seq<char>, root: SyntaxNode) -> Result<(Seq<char>, Option<Seq<char>>, Option<Seq<char>>), Seq<char>> {
    if call.kind@ == "call"@ {
        match callee(call) {
            None => Err(inline_error_message(InlineError::NoFunctionName)),
            Some(f) => if f.kind@ == "attribute"@ {
                Err(inline_error_message(InlineError::AttributeCallee))
            } else {
                Ok((text_of(src, f), None, None))
            },
        }
    } else if call.kind@ == "attribute"@ {
        attr_target(call, src, root)
    } else {
        Err("unexpected node kind '"@ + call.kind@ + "' \u{2014} expected call or attribute"@)
    }
}

/// The view of a resolved target.
pub open spec fn target_view(t: CallTarget) -> (Seq<char>, Option<Seq<char>>, Option<Seq<char>>) {
    (t.method_name@, opt_view(t.receiver_expr), opt_view(t.receiver_type))
}

fn attribute_parts<'a>(call: &'a SyntaxNode, source: &str) -> (r: Result<(&'a SyntaxNode, &'a SyntaxNode), InlineError>)
    requires
        tree_ok(source@, *call),
    ensures
        match r {
            Ok((o, m)) => attr_parts(*call) == Ok::<_, Seq<char>>((*o, *m)) && tree_ok(source@, *o) && tree_ok(source@, *m),
            Err(e) => attr_parts(*call) == Err::<(SyntaxNode, SyntaxNode), _>(inline_error_message(e)),
        },
{
    let obj = match crate::syntax::named_child_at(call, 0) {
        Some(o) => o,
        None => return Err(InlineError::NoReceiver),
    };
    proof {
        crate::syntax::lemma_named_child_in(*call, 0);
    }
    let ai = match first_child_of_kind(call, "attribute_call") {
        Some(i) => i,
        None => return Err(InlineError::NoAttributeCall),
    };
    let ac = &call.children[ai];
    assert(tree_ok(source@, *ac));
    let m = match crate::syntax::named_child_at(ac, 0) {
        Some(m) => m,
        None => return Err(InlineError::NoMethodName),
    };
    proof {
        crate::syntax::lemma_named_child_in(*ac, 0);
    }
    Ok((obj, m))
}

fn resolve_attribute_call(call: &SyntaxNode, source: &str, root: &SyntaxNode) -> (r: Result<CallTarget, InlineError>)
    requires
        tree_ok(source@, *call),
        tree_ok(source@, *root),
    ensures
        match r {
            Ok(t) => attr_target(*call, source@, *root) == Ok::<_, Seq<char>>(target_view(t)),
            Err(e) => attr_target(*call, source@, *root) == Err::<(Seq<char>, Option<Seq<char>>, Option<Seq<char>>), _>(inline_error_message(e)),
        },
{
    let (obj, m) = match attribute_parts(call, source) {
        Ok(p) => p,
        Err(e) => return Err(e),
    };
    let obj_text = node_text(obj, source);
    let method_name = node_text(m, source);
    if str_eq(obj_text.as_str(), "self") {
        return Ok(CallTarget { method_name, receiver_expr: Some(obj_text), receiver_type: None });
    }
    match find_var_type_annotation(root, obj_text.as_str(), source) {
        Some(t) => Ok(CallTarget { method_name, receiver_expr: Some(obj_text), receiver_type: Some(t) }),
        None => Err(InlineError::UntypedReceiver(obj_text)),
    }
}

/// Resolve a call node to the method it calls and its receiver; for a
/// receiver other than `self`, its type annotation is looked up in `root`.
pub fn resolve_call_target(call: &SyntaxNode, source: &str, root: &SyntaxNode) -> (r: Result<CallTarget, InlineError>)
    requires
        tree_ok(source@, *call),
        tree_ok(source@, *root),
    ensures
        match r {
            Ok(t) => call_target(*call, source@, *root) == Ok::<_, Seq<char>>(target_view(t)),
            Err(e) => call_target(*call, source@, *root) == Err::<(Seq<char>, Option<Seq<char>>, Option<Seq<char>>), _>(inline_error_message(e)),
        },
{
    if kind_is(call, "call") {
        let ci = match callee_index(call) {
            Some(i) => i,
            None => return Err(InlineError::NoFunctionName),
        };
        let f = &call.children[ci];
        assert(tree_ok(source@, *f));
        if kind_is(f, "attribute") {
            return Err(InlineError::AttributeCallee);
        }
        return Ok(CallTarget { method_name: node_text(f, source), receiver_expr: None, receiver_type: None });
    }
    if kind_is(call, "attribute") {
        return resolve_attribute_call(call, source, root);
    }
    Err(InlineError::UnexpectedKind(String::from_str(call.kind.as_str())))
}

// ── Call sites by name ─────────────────────────────────────────────────────

/// The node is a bare call of `name` (not through an attribute) that starts
/// outside the rows `a..=b`.
pub open spec fn site_call(n: SyntaxNode, src: Seq<char>, name: Seq<char>, a: usize, b: usize) -> bool {
    &&& n.kind@ == "call"@
    &&& callee(n) matches Some(f) && text_of(src, f) == name && f.kind@ != "attribute"@
    &&& (n.start_row < a || n.start_row > b)
}

/// The 0-based (row, column) of each such call in a subtree, in pre-order.
pub open spec fn call_sites(n: SyntaxNode, src: Seq<char>, name: Seq<char>, a: usize, b: usize) -> Seq<(usize, usize)>
    decreases n, n.children@.len() + 1,
{
    (if site_call(n, src, name, a, b) {
        seq![(n.start_row, n.start_column)]
    } else {
        Seq::empty()
    }) + call_sites_in_children(n, src, name, a, b, n.children@.len() as int)
}

/// The call sites under the first `k` children.
pub open spec fn call_sites_in_children(n: SyntaxNode, src: Seq<char>, name: Seq<char>, a: usize, b: usize, k: int) -> Seq<(usize, usize)>
    decreases n, k,
{
    if k <= 0 || k > n.children@.len() {
        Seq::empty()
    } else {
        call_sites_in_children(n, src, name, a, b, k - 1) + call_sites(n.children@[k - 1], src, name, a, b)
    }
}

/// Collect the call sites of `func_name` in a subtree, as 0-based (row,
/// column) of each call, leaving out calls on the rows `func_def_start..=func_def_end`
/// (the function's own definition).
pub fn collect_calls_to(
    node: &SyntaxNode,
    func_name: &str,
    source: &str,
    func_def_start: usize,
    func_def_end: usize,
    out: &mut Vec<(usize, usize)>,
)
    requires
        tree_ok(source@, *node),
    ensures
        final(out)@ == old(out)@ + call_sites(*node, source@, func_name@, func_def_start, func_def_end),
    decreases node,
{
    let ghost start = out@;
    if kind_is(node, "call") {
        match callee_index(node) {
            Some(ci) => {
                let f = &node.children[ci];
                assert(tree_ok(source@, *f));
                let t = node_text(f, source);
                if str_eq(t.as_str(), func_name) && !kind_is(f, "attribute") && (node.start_row < func_def_start
                    || node.start_row > func_def_end) {
                    out.push((node.start_row, node.start_column));
                }
            },
            None => {},
        }
    }
    let ghost mid = out@;
    assert(mid =~= start + (if site_call(*node, source@, func_name@, func_def_start, func_def_end) {
        seq![(node.start_row, node.start_column)]
    } else {
        Seq::empty()
    }));
    let mut i: usize = 0;
    assert(out@ =~= mid + call_sites_in_children(*node, source@, func_name@, func_def_start, func_def_end, 0));
    while i < node.children.len()
        invariant
            i <= node.children@.len(),
            tree_ok(source@, *node),
            out@ == mid + call_sites_in_children(*node, source@, func_name@, func_def_start, func_def_end, i as int),
        decreases node.children@.len() - i,
    {
        assert(tree_ok(source@, node.children@[i as int]));
        collect_calls_to(&node.children[i], func_name, source, func_def_start, func_def_end, out);
        assert(out@ =~= mid + call_sites_in_children(*node, source@, func_name@, func_def_start, func_def_end, i + 1));
        i += 1;
    }
    assert(out@ =~= start + call_sites(*node, source@, func_name@, func_def_start, func_def_end));
}

/// `x` placed into `t` after every entry whose row is at least its own.
pub open spec fn insert_desc(t: Seq<(usize, usize)>, x: (usize, usize)) -> Seq<(usize, usize)>
    decreases t.len(),
{
    if t.len() == 0 {
        seq![x]
    } else if t[0].0 >= x.0 {
        seq![t[0]] + insert_desc(t.drop_first(), x)
    } else {
        seq![x] + t
    }
}

/// The sites ordered by row, last row first; sites on one row keep their order.
pub open spec fn sorted_desc(s: Seq<(usize, usize)>) -> Seq<(usize, usize)>
    decreases s.len(),
{
    if s.len() == 0 {
        Seq::empty()
    } else {
        insert_desc(sorted_desc(s.drop_last()), s.last())
    }
}

fn insert_site(t: &mut Vec<(usize, usize)>, x: (usize, usize))
    ensures
        final(t)@ == insert_desc(old(t)@, x),
{
    let ghost t0 = t@;
    let mut p: usize = 0;
    while p < t.len() && t[p].0 >= x.0
        invariant
            p <= t@.len(),
            t@ == t0,
            forall|j: int| 0 <= j < p ==> t0[j].0 >= x.0,
        decreases t@.len() - p,
    {
        p += 1;
    }
    proof {
        lemma_insert_desc_at(t0, x, p as int);
    }
    t.insert(p, x);
    assert(t@ =~= t0.take(p as int) + seq![x] + t0.skip(p as int));
}

proof fn lemma_insert_desc_at(t: Seq<(usize, usize)>, x: (usize, usize), p: int)
    requires
        0 <= p <= t.len(),
        forall|j: int| 0 <= j < p ==> t[j].0 >= x.0,
        p < t.len() ==> t[p].0 < x.0,
    ensures
        insert_desc(t, x) == t.take(p) + seq![x] + t.skip(p),
    decreases t.len(),
{
    if t.len() == 0 {
        assert(t.take(p) + seq![x] + t.skip(p) =~= seq![x]);
    } else if p == 0 {
        assert(t.take(p) + seq![x] + t.skip(p) =~= seq![x] + t);
    } else {
        let r = t.drop_first();
        assert forall|j: int| 0 <= j < p - 1 implies r[j].0 >= x.0 by {
            assert(r[j] == t[j + 1]);
        }
        if p - 1 < r.len() {
            assert(r[p - 1] == t[p]);
        }
        lemma_insert_desc_at(r, x, p - 1);
        assert(t.take(p) + seq![x] + t.skip(p) =~= seq![t[0]] + (r.take(p - 1) + seq![x] + r.skip(p - 1)));
    }
}

/// Order call sites for inlining: last row first, so that inlining one site
/// leaves the rows of the others in place.
pub fn sort_sites_desc(sites: &[(usize, usize)]) -> (r: Vec<(usize, usize)>)
    ensures
        r@ == sorted_desc(sites@),
{
    let mut out: Vec<(usize, usize)> = Vec::new();
    let mut i: usize = 0;
    while i < sites.len()
        invariant
            i <= sites@.len(),
            out@ == sorted_desc(sites@.take(i as int)),
        decreases sites@.len() - i,
    {
        assert(sites@.take(i + 1).drop_last() =~= sites@.take(i as int));
        insert_site(&mut out, sites[i]);
        i += 1;
    }
    assert(sites@.take(i as int) =~= sites@);
    out
}

/// What inlining by name does: the call sites to inline, in the order to
/// inline them, and the warnings to report.
pub struct ByNamePlan {
    pub sites: Vec<(usize, usize)>,
    pub warnings: Vec<String>,
}

/// The warning given when only the first of several call sites is inlined.
pub open spec fn by_name_warnings(name: Seq<char>, n: nat, all: bool) -> Seq<Seq<char>> {
    if !all && n > 1 {
        seq!["function '"@ + name + "' has "@ + decimal(n) + " call sites \u{2014} use --all to inline all"@]
    } else {
        Seq::empty()
    }
}

/// Choose the call sites to inline by name: every site with `all`, else the
/// first; ordered last row first. Without call sites this is an error.
pub fn plan_inline_by_name(call_sites: &[(usize, usize)], name: &str, all: bool) -> (r: Result<ByNamePlan, InlineError>)
    ensures
        call_sites@.len() == 0 <==> r is Err,
        match r {
            Ok(p) => {
                &&& p.sites@ == (if all {
                    sorted_desc(call_sites@)
                } else {
                    seq![call_sites@[0]]
                })
                &&& string_texts(p.warnings@) == by_name_warnings(name@, call_sites@.len(), all)
            },
            Err(e) => inline_error_message(e) == "no call sites for '"@ + name@ + "' found in this file"@,
        },
{
    if call_sites.len() == 0 {
        return Err(InlineError::NoCallSites(String::from_str(name)));
    }
    let mut warnings: Vec<String> = Vec::new();
    if !all && call_sites.len() > 1 {
        let n = decimal_string(call_sites.len());
        warnings.push(concat_strs(&["function '", name, "' has ", n.as_str(), " call sites \u{2014} use --all to inline all"]));
        proof {
            reveal_with_fuel(concat_views, 6);
        }
    }
    assert(string_texts(warnings@) =~= by_name_warnings(name@, call_sites@.len(), all));
    let sites = if all {
        sort_sites_desc(call_sites)
    } else {
        let mut v: Vec<(usize, usize)> = Vec::new();
        v.push(call_sites[0]);
        assert(v@ =~= seq![call_sites@[0]]);
        v
    };
    Ok(ByNamePlan { sites, warnings })
}

// ── The function's body ────────────────────────────────────────────────────

/// The statements among the first `k` children: those that are not comments.
pub open spec fn stmts_in(cs: Seq<SyntaxNode>, k: int) -> Seq<SyntaxNode>
    decreases k,
{
    if k <= 0 || k > cs.len() {
        Seq::empty()
    } else {
        stmts_in(cs, k - 1) + if cs[k - 1].kind@ != "comment"@ {
            seq![cs[k - 1]]
        } else {
            Seq::empty()
        }
    }
}

/// The statements of a body.
pub open spec fn body_stmts(b: SyntaxNode) -> Seq<SyntaxNode> {
    stmts_in(b.children@, b.children@.len() as int)
}

/// The number of return statements in the first `k` statements.
pub open spec fn returns_total(ss: Seq<SyntaxNode>, k: int) -> int
    decreases k,
{
    if k <= 0 || k > ss.len() {
        0
    } else {
        returns_total(ss, k - 1) + returns_in(ss[k - 1])
    }
}

/// One of the first `k` statements calls `name`.
pub open spec fn calls_in(ss: Seq<SyntaxNode>, src: Seq<char>, name: Seq<char>, k: int) -> bool
    decreases k,
{
    if k <= 0 || k > ss.len() {
        false
    } else {
        calls_in(ss, src, name, k - 1) || calls_name(ss[k - 1], src, name)
    }
}

/// Whether a function can be inlined: its body's statements, or the message
/// of the error.
pub open spec fn inline_check(def: SyntaxNode, src: Seq<char>, name: Seq<char>) -> Result<Seq<SyntaxNode>, Seq<char>> {
    if def.kind@ != "function_definition"@ && def.kind@ != "constructor_definition"@ {
        Err("'"@ + name + "' is not a function"@)
    } else {
        match field_child(def, "body"@) {
            None => Err(inline_error_message(InlineError::NoBody)),
            Some(b) => {
                let ss = body_stmts(b);
                let rt = returns_total(ss, ss.len() as int);
                if ss.len() == 0 {
                    Err(inline_error_message(InlineError::EmptyBody))
                } else if rt > 1 {
                    Err(inline_error_message(InlineError::MultipleReturns))
                } else if rt == 1 && ss.last().kind@ != "return_statement"@ {
                    Err(inline_error_message(InlineError::NonTrailingReturn))
                } else if calls_in(ss, src, name, ss.len() as int) {
                    Err("cannot inline recursive function '"@ + name + "'"@)
                } else {
                    Ok(ss)
                }
            },
        }
    }
}

/// The positions of the statements of a body among its children.
pub(crate) fn stmt_indices(body: &SyntaxNode) -> (r: Vec<usize>)
    ensures
        r@.len() == body_stmts(*body).len(),
        forall|k: int| 0 <= k < r@.len() ==> #[trigger] r@[k] < body.children@.len() && body.children@[r@[k] as int]
            == body_stmts(*body)[k],
        forall|j: int, k: int| 0 <= j < k < r@.len() ==> #[trigger] r@[j] < #[trigger] r@[k],
{
    let mut out: Vec<usize> = Vec::new();
    let mut i: usize = 0;
    while i < body.children.len()
        invariant
            i <= body.children@.len(),
            out@.len() == stmts_in(body.children@, i as int).len(),
            forall|k: int| 0 <= k < out@.len() ==> #[trigger] out@[k] < i && body.children@[out@[k] as int]
                == stmts_in(body.children@, i as int)[k],
            forall|j: int, k: int| 0 <= j < k < out@.len() ==> #[trigger] out@[j] < #[trigger] out@[k],
        decreases body.children@.len() - i,
    {
        let ghost prev = stmts_in(body.children@, i as int);
        if !kind_is(&body.children[i], "comment") {
            out.push(i);
            assert(stmts_in(body.children@, i + 1) =~= prev.push(body.children@[i as int]));
        } else {
            assert(stmts_in(body.children@, i + 1) =~= prev);
        }
        i += 1;
    }
    out
}

/// The statements of an inlinable function's body, as positions among the
/// body's children; or why it cannot be inlined.
#[verifier::rlimit(40)]
pub fn check_inlinable<'a>(def: &'a SyntaxNode, def_source: &str, name: &str) -> (r: Result<(&'a SyntaxNode, Vec<usize>, bool), InlineError>)
    requires
        tree_ok(def_source@, *def),
    ensures
        match r {
            Ok((b, idx, has_return)) => {
                &&& field_child(*def, "body"@) == Some(*b)
                &&& exists|j: int| 0 <= j < def.children@.len() && def.children@[j] == *b
                &&& has_return == (returns_total(body_stmts(*b), body_stmts(*b).len() as int) == 1)
                &&& inline_check(*def, def_source@, name@) == Ok::<_, Seq<char>>(body_stmts(*b))
                &&& tree_ok(def_source@, *b)
                &&& idx@.len() == body_stmts(*b).len()
                &&& forall|k: int| 0 <= k < idx@.len() ==> #[trigger] idx@[k] < b.children@.len()
                    && b.children@[idx@[k] as int] == body_stmts(*b)[k]
                &&& forall|j: int, k: int| 0 <= j < k < idx@.len() ==> #[trigger] idx@[j] < #[trigger] idx@[k]
            },
            Err(e) => inline_check(*def, def_source@, name@) == Err::<Seq<SyntaxNode>, _>(inline_error_message(e)),
        },
{
    if !kind_is(def, "function_definition") && !kind_is(def, "constructor_definition") {
        return Err(InlineError::NotAFunction(String::from_str(name)));
    }
    let body = match child_by_field_name(def, "body") {
        Some(b) => b,
        None => return Err(InlineError::NoBody),
    };
    assert(tree_ok(def_source@, *body));
    let idx = stmt_indices(body);
    let ghost ss = body_stmts(*body);
    if idx.len() == 0 {
        return Err(InlineError::EmptyBody);
    }
    let mut count: usize = 0;
    let mut k: usize = 0;
    while k < idx.len()
        invariant
            k <= idx@.len(),
            idx@.len() == ss.len(),
            forall|j: int| 0 <= j < idx@.len() ==> #[trigger] idx@[j] < body.children@.len()
                && body.children@[idx@[j] as int] == ss[j],
            count == cap2(returns_total(ss, k as int)),
        decreases idx@.len() - k,
    {
        count_return_statements(&body.children[idx[k]], &mut count);
        k += 1;
    }
    if count > 1 {
        return Err(InlineError::MultipleReturns);
    }
    let last = &body.children[idx[idx.len() - 1]];
    if count == 1 && !kind_is(last, "return_statement") {
        return Err(InlineError::NonTrailingReturn);
    }
    let mut k: usize = 0;
    while k < idx.len()
        invariant
            k <= idx@.len(),
            idx@.len() == ss.len(),
            tree_ok(def_source@, *body),
            forall|j: int| 0 <= j < idx@.len() ==> #[trigger] idx@[j] < body.children@.len()
                && body.children@[idx@[j] as int] == ss[j],
            !calls_in(ss, def_source@, name@, k as int),
            count == cap2(returns_total(ss, ss.len() as int)),
            count <= 1,
            inline_check(*def, def_source@, name@) == (if calls_in(ss, def_source@, name@, ss.len() as int) {
                Err::<Seq<SyntaxNode>, Seq<char>>("cannot inline recursive function '"@ + name@ + "'"@)
            } else {
                Ok::<Seq<SyntaxNode>, Seq<char>>(ss)
            }),
        decreases idx@.len() - k,
    {
        assert(tree_ok(def_source@, body.children@[idx@[k as int] as int]));
        if contains_call_to(&body.children[idx[k]], name, def_source) {
            proof {
                lemma_calls_in_grow(ss, def_source@, name@, k + 1, ss.len() as int);
            }
            return Err(InlineError::Recursive(String::from_str(name)));
        }
        k += 1;
    }
    Ok((body, idx, count == 1))
}

proof fn lemma_calls_in_grow(ss: Seq<SyntaxNode>, src: Seq<char>, name: Seq<char>, k: int, m: int)
    requires
        0 <= k <= m <= ss.len(),
        calls_in(ss, src, name, k),
    ensures
        calls_in(ss, src, name, m),
    decreases m - k,
{
    if k < m {
        lemma_calls_in_grow(ss, src, name, k, m - 1);
    }
}

// ── Parameter substitution ─────────────────────────────────────────────────

/// The argument for parameter `i`: the call's argument, else the default,
/// else the parameter's own name.
pub open spec fn arg_for(ps: Seq<(Seq<char>, Option<Seq<char>>, Option<Seq<char>>)>, args: Seq<Seq<char>>, i: int) -> Seq<char> {
    if i < args.len() {
        args[i]
    } else {
        match ps[i].2 {
            Some(d) => d,
            None => ps[i].0,
        }
    }
}

/// The first `k` parameters mapped to their arguments (a later name wins).
pub open spec fn param_map(ps: Seq<(Seq<char>, Option<Seq<char>>, Option<Seq<char>>)>, args: Seq<Seq<char>>, k: int) -> Map<Seq<char>, Seq<char>>
    decreases k,
{
    if k <= 0 || k > ps.len() {
        Map::empty()
    } else {
        param_map(ps, args, k - 1).insert(ps[k - 1].0, arg_for(ps, args, k - 1))
    }
}

/// Map each parameter to the argument the call passes for it.
pub fn build_param_map(params: &[ParamInfo], args: &[String]) -> (m: TextMap)
    ensures
        m.wf(),
        m@ == param_map(params@.map_values(|p: ParamInfo| param_view(p)), string_texts(args@), params@.len() as int),
{
    let ghost ps = params@.map_values(|p: ParamInfo| param_view(p));
    let mut m = TextMap::new();
    let mut i: usize = 0;
    while i < params.len()
        invariant
            i <= params@.len(),
            ps == params@.map_values(|p: ParamInfo| param_view(p)),
            m.wf(),
            m@ == param_map(ps, string_texts(args@), i as int),
        decreases params@.len() - i,
    {
        let p = &params[i];
        let arg: Vec<char> = if i < args.len() {
            chars_of(args[i].as_str())
        } else {
            match &p.default {
                Some(d) => chars_of(d.as_str()),
                None => chars_of(p.name.as_str()),
            }
        };
        assert(arg@ == arg_for(ps, string_texts(args@), i as int));
        m.insert(chars_of(p.name.as_str()), arg);
        i += 1;
    }
    m
}

/// A replacement: a byte range and the text that goes there.
pub open spec fn rep_view(v: Seq<(usize, usize, Vec<char>)>) -> Seq<(int, int, Seq<char>)> {
    v.map_values(|e: (usize, usize, Vec<char>)| (e.0 as int, e.1 as int, e.2@))
}

/// The replacement a node calls for: an identifier or name that is a parameter.
pub open spec fn own_rep(n: SyntaxNode, src: Seq<char>, m: Map<Seq<char>, Seq<char>>) -> Seq<(int, int, Seq<char>)> {
    if (n.kind@ == "identifier"@ || n.kind@ == "name"@) && m.contains_key(text_of(src, n)) {
        seq![(n.start_byte as int, n.end_byte as int, m[text_of(src, n)])]
    } else {
        Seq::empty()
    }
}

/// The replacements in a subtree, in pre-order.
pub open spec fn reps_of(n: SyntaxNode, src: Seq<char>, m: Map<Seq<char>, Seq<char>>) -> Seq<(int, int, Seq<char>)>
    decreases n, n.children@.len() + 1,
{
    own_rep(n, src, m) + reps_in_children(n, src, m, n.children@.len() as int)
}

/// The replacements under the first `k` children.
pub open spec fn reps_in_children(n: SyntaxNode, src: Seq<char>, m: Map<Seq<char>, Seq<char>>, k: int) -> Seq<(int, int, Seq<char>)>
    decreases n, k,
{
    if k <= 0 || k > n.children@.len() {
        Seq::empty()
    } else {
        reps_in_children(n, src, m, k - 1) + reps_of(n.children@[k - 1], src, m)
    }
}

/// The replacements in the first `k` statements.
pub open spec fn reps_in_stmts(ss: Seq<SyntaxNode>, src: Seq<char>, m: Map<Seq<char>, Seq<char>>, k: int) -> Seq<(int, int, Seq<char>)>
    decreases k,
{
    if k <= 0 || k > ss.len() {
        Seq::empty()
    } else {
        reps_in_stmts(ss, src, m, k - 1) + reps_of(ss[k - 1], src, m)
    }
}

/// Replacements that follow one another without overlap.
pub open spec fn sorted_reps(v: Seq<(int, int, Seq<char>)>) -> bool {
    &&& forall|i: int| 0 <= i < v.len() ==> (#[trigger] v[i]).0 <= v[i].1
    &&& forall|i: int, j: int| #![trigger v[i], v[j]] 0 <= i < j < v.len() ==> v[i].1 <= v[j].0
}

/// Every replacement covers a range of `src` on character boundaries.
pub open spec fn spans_in(src: Seq<char>, v: Seq<(int, int, Seq<char>)>) -> bool {
    forall|i: int| 0 <= i < v.len() ==> span_ok(src, (#[trigger] v[i]).0, v[i].1)
}

pub(crate) proof fn lemma_sorted_push(v: Seq<(int, int, Seq<char>)>, x: (int, int, Seq<char>))
    requires
        sorted_reps(v),
        x.0 <= x.1,
        v.len() > 0 ==> v.last().1 <= x.0,
    ensures
        sorted_reps(v.push(x)),
{
    let w = v.push(x);
    assert forall|i: int, j: int| #![trigger w[i], w[j]] 0 <= i < j < w.len() implies w[i].1 <= w[j].0 by {
        if j == v.len() && i < v.len() - 1 {
            assert(v[i].1 <= v[v.len() - 1].0);
        }
    }
    assert forall|i: int| 0 <= i < w.len() implies (#[trigger] w[i]).0 <= w[i].1 by {
        if i < v.len() {
            assert(w[i] == v[i]);
        }
    }
}

/// Collect the parameter occurrences of a subtree as replacements.
pub fn collect_param_replacements(node: &SyntaxNode, source: &str, map: &TextMap, out: &mut Vec<(usize, usize, Vec<char>)>)
    requires
        tree_ok(source@, *node),
        well_nested(*node),
        map.wf(),
        sorted_reps(rep_view(old(out)@)),
        spans_in(source@, rep_view(old(out)@)),
        old(out)@.len() > 0 ==> old(out)@.last().1 <= node.start_byte,
    ensures
        rep_view(final(out)@) == rep_view(old(out)@) + reps_of(*node, source@, map@),
        sorted_reps(rep_view(final(out)@)),
        spans_in(source@, rep_view(final(out)@)),
        final(out)@.len() > 0 ==> final(out)@.last().1 <= node.end_byte,
        final(out)@.len() > old(out)@.len() ==> final(out)@[old(out)@.len() as int].0 >= node.start_byte,
    decreases node,
{
    let ghost start = rep_view(out@);
    if kind_is(node, "identifier") || kind_is(node, "name") {
        let t = node_text(node, source);
        let tc = chars_of(t.as_str());
        match map.get(&tc) {
            Some(v) => {
                proof {
                    lemma_sorted_push(start, (node.start_byte as int, node.end_byte as int, v@));
                }
                let ghost vv = v@;
                out.push((node.start_byte, node.end_byte, v));
                assert(rep_view(out@) =~= start.push((node.start_byte as int, node.end_byte as int, vv)));
                assert(rep_view(out@) =~= start + own_rep(*node, source@, map@));
                assert(node.children@.len() == 0);
                assert(reps_in_children(*node, source@, map@, 0) =~= Seq::<(int, int, Seq<char>)>::empty());
                assert(rep_view(out@) =~= start + reps_of(*node, source@, map@));
                return;
            },
            None => {},
        }
    }
    assert(rep_view(out@) =~= start + own_rep(*node, source@, map@));
    let ghost mid = rep_view(out@);
    let mut i: usize = 0;
    assert(rep_view(out@) =~= mid + reps_in_children(*node, source@, map@, 0));
    while i < node.children.len()
        invariant
            i <= node.children@.len(),
            tree_ok(source@, *node),
            well_nested(*node),
            map.wf(),
            rep_view(out@) == mid + reps_in_children(*node, source@, map@, i as int),
            sorted_reps(rep_view(out@)),
            spans_in(source@, rep_view(out@)),
            out@.len() > 0 ==> out@.last().1 <= (if i == 0 {
                node.start_byte
            } else {
                node.children@[i - 1].end_byte
            }),
            out@.len() > mid.len() ==> out@[mid.len() as int].0 >= node.start_byte,
            mid.len() == old(out)@.len(),
            i > 0 ==> node.children@[i - 1].end_byte <= node.end_byte,
        decreases node.children@.len() - i,
    {
        let c = &node.children[i];
        assert(tree_ok(source@, *c));
        assert(well_nested(*c));
        if i > 0 {
            assert(node.children@[i - 1].end_byte <= c.start_byte);
        }
        let ghost bout = out@;
        collect_param_replacements(c, source, map, out);
        proof {
            if bout.len() > mid.len() {
                assert(rep_view(out@)[mid.len() as int] == rep_view(bout)[mid.len() as int]);
            }
        }
        assert(rep_view(out@) =~= mid + reps_in_children(*node, source@, map@, i + 1));
        i += 1;
    }
    assert(rep_view(out@) =~= start + reps_of(*node, source@, map@));
}

/// The text from `from` to `to` with each replacement's range replaced by its text.
pub open spec fn spliced(src: Seq<char>, reps: Seq<(int, int, Seq<char>)>, from: int, to: int) -> Seq<char>
    decreases reps.len(),
{
    if reps.len() == 0 {
        text_between(src, from, to)
    } else {
        text_between(src, from, reps[0].0) + reps[0].2 + spliced(src, reps.drop_first(), reps[0].1, to)
    }
}

pub(crate) fn splice_reps(source: &str, reps: &Vec<(usize, usize, Vec<char>)>, from: usize, to: usize) -> (r: Vec<char>)
    requires
        sorted_reps(rep_view(reps@)),
        spans_in(source@, rep_view(reps@)),
        span_ok(source@, from as int, to as int),
        forall|i: int| 0 <= i < reps@.len() ==> from <= (#[trigger] reps@[i]).0 && reps@[i].1 <= to,
    ensures
        r@ == spliced(source@, rep_view(reps@), from as int, to as int),
{
    let ghost rv = rep_view(reps@);
    let mut out: Vec<char> = Vec::new();
    let mut pos: usize = from;
    let mut i: usize = 0;
    assert(rv.skip(0) =~= rv);
    while i < reps.len()
        invariant
            i <= reps@.len(),
            rv == rep_view(reps@),
            sorted_reps(rv),
            spans_in(source@, rv),
            forall|j: int| 0 <= j < reps@.len() ==> from <= (#[trigger] reps@[j]).0 && reps@[j].1 <= to,
            span_ok(source@, pos as int, to as int),
            i < reps@.len() ==> pos <= reps@[i as int].0,
            out@ + spliced(source@, rv.skip(i as int), pos as int, to as int) == spliced(source@, rv, from as int, to as int),
        decreases reps@.len() - i,
    {
        let e = &reps[i];
        assert(rv[i as int] == (e.0 as int, e.1 as int, e.2@));
        assert(span_ok(source@, e.0 as int, e.1 as int));
        let piece = slice_str(source, pos, e.0);
        let ghost before = out@;
        extend(&mut out, &chars_of(piece.as_str()));
        extend(&mut out, &e.2);
        assert(rv.skip(i as int)[0] == rv[i as int]);
        assert(rv.skip(i as int).drop_first() =~= rv.skip(i + 1));
        if i + 1 < reps.len() {
            assert(rv[i as int].1 <= rv[i + 1].0);
        }
        pos = e.1;
        i += 1;
    }
    let tail = slice_str(source, pos, to);
    extend(&mut out, &chars_of(tail.as_str()));
    assert(rv.skip(i as int) =~= Seq::<(int, int, Seq<char>)>::empty());
    out
}

pub(crate) proof fn lemma_within(v: Seq<(int, int, Seq<char>)>, a: int, b: int)
    requires
        sorted_reps(v),
        v.len() > 0 ==> v[0].0 >= a && v.last().1 <= b,
    ensures
        forall|i: int| 0 <= i < v.len() ==> a <= (#[trigger] v[i]).0 && v[i].1 <= b,
{
    assert forall|i: int| 0 <= i < v.len() implies a <= (#[trigger] v[i]).0 && v[i].1 <= b by {
        if i > 0 {
            assert(v[0].1 <= v[i].0);
        }
        if i < v.len() - 1 {
            assert(v[i].1 <= v[v.len() - 1].0);
        }
    }
}

/// The body text from the first statement to the end of the last, with each
/// parameter occurrence replaced by its argument.
pub open spec fn substituted(src: Seq<char>, ss: Seq<SyntaxNode>, m: Map<Seq<char>, Seq<char>>) -> Seq<char> {
    spliced(src, reps_in_stmts(ss, src, m, ss.len() as int), ss[0].start_byte as int, ss.last().end_byte as int)
}

/// Substitute parameter identifiers with argument expressions in the body
/// statements `idx` of `body`.
pub fn substitute_params(source: &str, body: &SyntaxNode, idx: &Vec<usize>, map: &TextMap) -> (r: Vec<char>)
    requires
        tree_ok(source@, *body),
        well_nested(*body),
        map.wf(),
        idx@.len() > 0,
        forall|k: int| 0 <= k < idx@.len() ==> #[trigger] idx@[k] < body.children@.len(),
        forall|j: int, k: int| 0 <= j < k < idx@.len() ==> #[trigger] idx@[j] < #[trigger] idx@[k],
    ensures
        r@ == substituted(source@, Seq::new(idx@.len(), |k: int| body.children@[idx@[k] as int]), map@),
{
    let ghost ss = Seq::new(idx@.len(), |k: int| body.children@[idx@[k] as int]);
    let first = &body.children[idx[0]];
    let last = &body.children[idx[idx.len() - 1]];
    assert(ss[0] == *first);
    assert(ss.last() == *last);
    assert(tree_ok(source@, *first));
    assert(tree_ok(source@, *last));
    assert(well_nested(*first));
    assert(well_nested(*last));
    let mut out: Vec<(usize, usize, Vec<char>)> = Vec::new();
    let mut k: usize = 0;
    while k < idx.len()
        invariant
            k <= idx@.len(),
            idx@.len() > 0,
            ss == Seq::new(idx@.len(), |k: int| body.children@[idx@[k] as int]),
            forall|q: int| 0 <= q < idx@.len() ==> #[trigger] idx@[q] < body.children@.len(),
            forall|p: int, q: int| 0 <= p < q < idx@.len() ==> #[trigger] idx@[p] < #[trigger] idx@[q],
            tree_ok(source@, *body),
            well_nested(*body),
            map.wf(),
            *first == ss[0],
            first.start_byte <= first.end_byte,
            rep_view(out@) == reps_in_stmts(ss, source@, map@, k as int),
            sorted_reps(rep_view(out@)),
            spans_in(source@, rep_view(out@)),
            out@.len() > 0 ==> out@.last().1 <= (if k == 0 {
                first.start_byte
            } else {
                ss[k - 1].end_byte
            }),
            out@.len() > 0 ==> out@[0].0 >= first.start_byte,
        decreases idx@.len() - k,
    {
        let c = &body.children[idx[k]];
        assert(*c == ss[k as int]);
        assert(tree_ok(source@, *c));
        assert(well_nested(*c));
        if k > 0 {
            assert(body.children@[idx@[k - 1] as int].end_byte <= c.start_byte);
        }
        if k > 0 {
            assert(body.children@[idx@[0] as int].end_byte <= c.start_byte);
        }
        let ghost before = rep_view(out@);
        let ghost bout = out@;
        collect_param_replacements(c, source, map, &mut out);
        proof {
            if bout.len() > 0 {
                assert(rep_view(out@)[0] == rep_view(bout)[0]);
            }
        }
        assert(rep_view(out@) =~= reps_in_stmts(ss, source@, map@, k + 1));
        k += 1;
    }
    proof {
        lemma_within(rep_view(out@), first.start_byte as int, last.end_byte as int);
        if idx@.len() > 1 {
            assert(body.children@[idx@[0] as int].end_byte <= body.children@[idx@[idx@.len() - 1] as int].start_byte);
        }
    }
    assert(span_ok(source@, first.start_byte as int, last.end_byte as int));
    assert forall|i: int| 0 <= i < out@.len() implies first.start_byte <= (#[trigger] out@[i]).0 && out@[i].1
        <= last.end_byte by {
        assert(rep_view(out@)[i] == (out@[i].0 as int, out@[i].1 as int, out@[i].2@));
    }
    splice_reps(source, &out, first.start_byte, last.end_byte)
}

// ── The return value ───────────────────────────────────────────────────────

/// A line whose text, after leading whitespace, starts with `return`.
pub open spec fn is_return_line(l: Seq<char>) -> bool {
    starts_with(trim_start(l), "return"@)
}

/// The last of the first `k` lines that is a return line.
pub open spec fn last_return_in(ls: Seq<Seq<char>>, k: int) -> Option<int>
    decreases k,
{
    if k <= 0 || k > ls.len() {
        None
    } else if is_return_line(ls[k - 1]) {
        Some(k - 1)
    } else {
        last_return_in(ls, k - 1)
    }
}

/// The expression a return line returns: what follows `return`, without
/// leading whitespace.
pub open spec fn return_expr_of(l: Seq<char>) -> Seq<char> {
    let t = trim_start(l);
    if t.len() > 6 {
        trim_start(t.skip(6))
    } else {
        Seq::empty()
    }
}

/// The substituted body split into the lines before its last return line
/// (none when the body is that single statement) and the returned expression.
pub open spec fn split_return(sub: Seq<char>, single: bool) -> (Seq<char>, Seq<char>) {
    let ls = lines(sub);
    let found = last_return_in(ls, ls.len() as int);
    let ret = match found {
        Some(i) => return_expr_of(ls[i]),
        None => Seq::empty(),
    };
    if single {
        (Seq::empty(), ret)
    } else {
        let idx = match found {
            Some(i) => i,
            None => ls.len() as int,
        };
        (join(ls.take(idx), "\n"@), ret)
    }
}

/// Split the body at its trailing return: the statements before it, and the
/// returned expression.
pub fn split_return_value(sub: &[char], single: bool) -> (r: (Vec<char>, Vec<char>))
    ensures
        (r.0@, r.1@) == split_return(sub@, single),
{
    let ls = lines_of(sub);
    let ghost lv = lines(sub@);
    let ret_word: [char; 6] = ['r', 'e', 't', 'u', 'r', 'n'];
    assert(ret_word@ =~= "return"@) by {
        reveal_strlit("return");
    }
    let ghost fl = last_return_in(lv, lv.len() as int);
    let mut k: usize = ls.len();
    let mut found: Option<usize> = None;
    while k > 0
        invariant
            k <= ls@.len(),
            ls@.len() == lv.len(),
            forall|i: int| 0 <= i < ls@.len() ==> (#[trigger] ls@[i])@ == lv[i],
            ret_word@ == "return"@,
            fl == last_return_in(lv, lv.len() as int),
            found is None ==> fl == last_return_in(lv, k as int),
            found matches Some(i) ==> fl == Some(i as int) && i < lv.len(),
            found is Some ==> k == 0,
        decreases k,
    {
        let t = trimmed_start(&ls[k - 1]);
        if has_prefix(&t, &ret_word) {
            assert(ls@[k - 1]@ == lv[k - 1]);
            assert(is_return_line(lv[k - 1]));
            assert(last_return_in(lv, k as int) == Some(k - 1));
            found = Some(k - 1);
            k = 0;
        } else {
            k -= 1;
        }
    }
    let ret: Vec<char> = match found {
        Some(i) => {
            let t = trimmed_start(&ls[i]);
            if t.len() > 6 {
                let rest = crate::text::slice_of(&t, 6, t.len());
                assert(rest@ =~= t@.skip(6));
                trimmed_start(&rest)
            } else {
                Vec::new()
            }
        },
        None => Vec::new(),
    };
    if single {
        return (Vec::new(), ret);
    }
    let idx = match found {
        Some(i) => i,
        None => ls.len(),
    };
    let mut before: Vec<Vec<char>> = Vec::new();
    let mut j: usize = 0;
    while j < idx
        invariant
            j <= idx <= ls@.len(),
            ls@.len() == lv.len(),
            forall|i: int| 0 <= i < ls@.len() ==> (#[trigger] ls@[i])@ == lv[i],
            before@.map_values(|v: Vec<char>| v@) == lv.take(j as int),
        decreases idx - j,
    {
        let l = crate::text::slice_of(&ls[j], 0, ls[j].len());
        assert(l@ =~= lv[j as int]);
        let ghost prev = before@.map_values(|v: Vec<char>| v@);
        before.push(l);
        assert(before@.map_values(|v: Vec<char>| v@) =~= prev.push(lv[j as int]));
        assert(before@.map_values(|v: Vec<char>| v@) =~= lv.take(j + 1));
        j += 1;
    }
    let nl = ['\n'];
    assert(nl@ =~= "\n"@) by {
        reveal_strlit("\n");
    }
    (join_lines(&before, &nl), ret)
}

// ── The inlined code ───────────────────────────────────────────────────────

/// A call that is the value of an assignment or a `var` statement.
pub open spec fn assign_parent(parent: Option<SyntaxNode>) -> bool {
    parent matches Some(p) && (p.kind@ == "assignment"@ || p.kind@ == "augmented_assignment"@ || p.kind@
        == "variable_statement"@)
}

/// The text, or `x` when there is none.
pub open spec fn or_x(t: Option<Seq<char>>) -> Seq<char> {
    match t {
        Some(x) => x,
        None => seq!['x'],
    }
}

/// The line that assigns the returned value as the call's value was assigned.
pub open spec fn assign_line(p: SyntaxNode, indent: Seq<char>, e: Seq<char>, src: Seq<char>) -> Seq<char> {
    if p.kind@ == "variable_statement"@ {
        indent + seq!['v', 'a', 'r', ' '] + or_x(field_text(p, "name"@, src)) + seq![' ', '=', ' '] + e + seq!['\n']
    } else {
        indent + or_x(field_text(p, "left"@, src)) + seq![' ', '=', ' '] + e + seq!['\n']
    }
}

/// What follows the re-indented body: the line that uses the returned value
/// (assigned as the call's value was; alone when the body is just the
/// return), or `pass` when there is nothing else.
pub open spec fn tail_code(no_pre: bool, ret: Option<Seq<char>>, indent: Seq<char>, parent: Option<SyntaxNode>, src: Seq<char>) -> Seq<char> {
    match ret {
        Some(e) => if assign_parent(parent) {
            assign_line(parent->0, indent, e, src)
        } else if no_pre {
            indent + e + seq!['\n']
        } else {
            Seq::empty()
        },
        None => if no_pre {
            indent + seq!['p', 'a', 's', 's', '\n']
        } else {
            Seq::empty()
        },
    }
}

/// The code that takes the place of the call's statement: the body before
/// the return, re-indented to the call's indentation, then the tail.
pub open spec fn inlined_code(pre: Seq<char>, ret: Option<Seq<char>>, indent: Seq<char>, parent: Option<SyntaxNode>, src: Seq<char>) -> Seq<char> {
    (if pre.len() > 0 {
        crate::refactor::convert_signal::with_final_nl(reindented(pre, indent))
    } else {
        Seq::empty()
    }) + tail_code(pre.len() == 0, ret, indent, parent, src)
}

fn field_text_or_x(node: &SyntaxNode, f: &str, source: &str) -> (r: Vec<char>)
    requires
        tree_ok(source@, *node),
    ensures
        r@ == or_x(field_text(*node, f@, source@)),
{
    match field_text_of(node, f, source) {
        Some(t) => chars_of(t.as_str()),
        None => {
            let mut v: Vec<char> = Vec::new();
            v.push('x');
            assert(v@ =~= seq!['x']);
            v
        },
    }
}

fn push_assign_line(out: &mut Vec<char>, p: &SyntaxNode, indent: &[char], e: &[char], source: &str)
    requires
        tree_ok(source@, *p),
    ensures
        final(out)@ == old(out)@ + assign_line(*p, indent@, e@, source@),
{
    let ghost o = out@;
    extend(out, indent);
    if kind_is(p, "variable_statement") {
        out.push('v');
        out.push('a');
        out.push('r');
        out.push(' ');
        extend(out, &field_text_or_x(p, "name", source));
    } else {
        extend(out, &field_text_or_x(p, "left", source));
    }
    out.push(' ');
    out.push('=');
    out.push(' ');
    extend(out, e);
    out.push('\n');
    assert(out@ =~= o + assign_line(*p, indent@, e@, source@));
}

fn push_tail(out: &mut Vec<char>, no_pre: bool, ret: &Option<Vec<char>>, indent: &[char], parent: Option<&SyntaxNode>, source: &str)
    requires
        parent matches Some(p) ==> tree_ok(source@, *p),
    ensures
        final(out)@ == old(out)@ + tail_code(no_pre, match ret {
            Some(e) => Some(e@),
            None => None,
        }, indent@, match parent {
            Some(p) => Some(*p),
            None => None,
        }, source@),
{
    let ghost o = out@;
    let is_assign = match parent {
        Some(p) => kind_is(p, "assignment") || kind_is(p, "augmented_assignment") || kind_is(p, "variable_statement"),
        None => false,
    };
    match ret {
        Some(e) => {
            if is_assign {
                push_assign_line(out, parent.unwrap(), indent, e, source);
            } else if no_pre {
                extend(out, indent);
                extend(out, e);
                out.push('\n');
            }
        },
        None => {
            if no_pre {
                extend(out, indent);
                out.push('p');
                out.push('a');
                out.push('s');
                out.push('s');
                out.push('\n');
            }
        },
    }
    assert(out@ =~= o + tail_code(no_pre, match ret {
        Some(e) => Some(e@),
        None => None,
    }, indent@, match parent {
        Some(p) => Some(*p),
        None => None,
    }, source@));
}

/// Build the code that replaces the call's statement.
pub fn build_inlined_code(pre: &Vec<char>, ret: &Option<Vec<char>>, indent: &[char], parent: Option<&SyntaxNode>, source: &str) -> (r: Vec<char>)
    requires
        pre@.len() > 0 ==> reindent_ok(pre@),
        parent matches Some(p) ==> tree_ok(source@, *p),
    ensures
        r@ == inlined_code(pre@, match ret {
            Some(e) => Some(e@),
            None => None,
        }, indent@, match parent {
            Some(p) => Some(*p),
            None => None,
        }, source@),
{
    let mut out: Vec<char> = Vec::new();
    if pre.len() > 0 {
        let ps = string_of(pre);
        let ri = re_indent_with(ps.as_str(), indent);
        out = chars_of(ri.as_str());
        crate::refactor::convert_signal::end_with_nl(&mut out);
    }
    push_tail(&mut out, pre.len() == 0, ret, indent, parent, source);
    out
}

// ── Inlining a call ────────────────────────────────────────────────────────

/// The body with each parameter replaced by its argument and, for a receiver
/// other than `self`, `self` replaced by the receiver.
pub open spec fn body_for_call(ss: Seq<SyntaxNode>, def_src: Seq<char>, m: Map<Seq<char>, Seq<char>>, receiver: Option<Seq<char>>) -> Seq<char> {
    let sub = substituted(def_src, ss, m);
    match receiver {
        Some(r) => if r != "self"@ {
            self_replaced(sub, r, 0)
        } else {
            sub
        },
        None => sub,
    }
}

/// What a call inlines to: the statements before the return (all of them
/// when there is no return), and the returned expression if there is one;
/// or the message of why the function cannot be inlined.
pub open spec fn inline_body_spec(call: SyntaxNode, src: Seq<char>, def: SyntaxNode, def_src: Seq<char>, name: Seq<char>, receiver: Option<Seq<char>>) -> Result<(Seq<char>, Option<Seq<char>>), Seq<char>> {
    match inline_check(def, def_src, name) {
        Err(e) => Err(e),
        Ok(ss) => {
            let ps = func_params(def, def_src);
            let m = param_map(ps, call_args(call, src), ps.len() as int);
            let sub = body_for_call(ss, def_src, m, receiver);
            if returns_total(ss, ss.len() as int) == 1 {
                let (pre, e) = split_return(sub, ss.len() == 1);
                Ok((pre, Some(e)))
            } else {
                Ok((sub, None))
            }
        },
    }
}

/// The view of an optional text.
pub open spec fn opt_chars(o: Option<Vec<char>>) -> Option<Seq<char>> {
    match o {
        Some(v) => Some(v@),
        None => None,
    }
}

/// The view of an optional string slice.
pub open spec fn opt_str_view(o: Option<&str>) -> Option<Seq<char>> {
    match o {
        Some(v) => Some(v@),
        None => None,
    }
}

/// The parameters of `def` mapped to the arguments of `call`.
pub open spec fn call_param_map(call: SyntaxNode, src: Seq<char>, def: SyntaxNode, def_src: Seq<char>) -> Map<Seq<char>, Seq<char>> {
    param_map(func_params(def, def_src), call_args(call, src), func_params(def, def_src).len() as int)
}

fn body_text_for_call(call: &SyntaxNode, source: &str, def: &SyntaxNode, def_source: &str, body: &SyntaxNode, idx: &Vec<usize>, receiver: Option<&str>) -> (r: Vec<char>)
    requires
        tree_ok(source@, *call),
        tree_ok(def_source@, *def),
        tree_ok(def_source@, *body),
        well_nested(*body),
        idx@.len() > 0,
        forall|k: int| 0 <= k < idx@.len() ==> #[trigger] idx@[k] < body.children@.len(),
        forall|j: int, k: int| 0 <= j < k < idx@.len() ==> #[trigger] idx@[j] < #[trigger] idx@[k],
    ensures
        r@ == body_for_call(
            Seq::new(idx@.len(), |k: int| body.children@[idx@[k] as int]),
            def_source@,
            call_param_map(*call, source@, *def, def_source@),
            opt_str_view(receiver),
        ),
{
    let args = extract_call_arguments(call, source);
    let params = extract_function_params(def, def_source);
    let map = build_param_map(&params, &args);
    let sub0 = substitute_params(def_source, body, idx, &map);
    match receiver {
        Some(rcv) => {
            if !str_eq(rcv, "self") {
                let t = string_of(&sub0);
                let replaced = replace_self_references(t.as_str(), rcv);
                chars_of(replaced.as_str())
            } else {
                sub0
            }
        },
        None => sub0,
    }
}

/// Work out what a call to `def` (named `name`, defined in `def_source`)
/// inlines to: the body before the return and the returned expression.
#[verifier::rlimit(40)]
pub fn inline_body(call: &SyntaxNode, source: &str, def: &SyntaxNode, def_source: &str, name: &str, receiver: Option<&str>) -> (r: Result<(Vec<char>, Option<Vec<char>>), InlineError>)
    requires
        tree_ok(source@, *call),
        tree_ok(def_source@, *def),
        well_nested(*def),
    ensures
        match r {
            Ok((pre, ret)) => inline_body_spec(*call, source@, *def, def_source@, name@, opt_str_view(receiver))
                == Ok::<_, Seq<char>>((pre@, opt_chars(ret))),
            Err(e) => inline_body_spec(*call, source@, *def, def_source@, name@, opt_str_view(receiver))
                == Err::<(Seq<char>, Option<Seq<char>>), _>(inline_error_message(e)),
        },
{
    let (body, idx, has_return) = match check_inlinable(def, def_source, name) {
        Ok(x) => x,
        Err(e) => return Err(e),
    };
    let ghost ss = body_stmts(*body);
    proof {
        let j = choose|j: int| 0 <= j < def.children@.len() && def.children@[j] == *body;
        assert(well_nested(def.children@[j]));
        assert(Seq::new(idx@.len(), |k: int| body.children@[idx@[k] as int]) =~= ss);
    }
    let sub = body_text_for_call(call, source, def, def_source, body, &idx, receiver);
    if has_return {
        let (pre, e) = split_return_value(&sub, idx.len() == 1);
        Ok((pre, Some(e)))
    } else {
        Ok((sub, None))
    }
}

/// The body before the return can be re-indented (where it cannot, slicing
/// its lines panics).
pub open spec fn body_reindentable(b: Result<(Seq<char>, Option<Seq<char>>), Seq<char>>) -> bool {
    b matches Ok((pre, _)) ==> (pre.len() > 0 ==> reindent_ok(pre))
}

/// Whether what a call inlines to can be re-indented.
pub fn inline_reindentable(call: &SyntaxNode, source: &str, def: &SyntaxNode, def_source: &str, name: &str, receiver: Option<&str>) -> (r: bool)
    requires
        tree_ok(source@, *call),
        tree_ok(def_source@, *def),
        well_nested(*def),
    ensures
        r == body_reindentable(inline_body_spec(*call, source@, *def, def_source@, name@, opt_str_view(receiver))),
{
    match inline_body(call, source, def, def_source, name, receiver) {
        Ok((pre, _)) => pre.len() == 0 || crate::refactor::can_re_indent(string_of(&pre).as_str()),
        Err(_) => true,
    }
}

/// The statement the call stands in: the assignment when the call's value is
/// assigned, else the call itself.
pub open spec fn stmt_node(call: SyntaxNode, parent: Option<SyntaxNode>) -> SyntaxNode {
    if assign_parent(parent) {
        parent->0
    } else {
        call
    }
}

/// The statement's rows exist in the source, in order.
pub open spec fn rows_ok(src: Seq<char>, st: SyntaxNode) -> bool {
    st.start_row <= st.end_row && st.start_row < nl_starts(encode_utf8(src)).len()
}

/// The byte range of the whole lines a statement spans.
pub open spec fn stmt_lines(src: Seq<char>, st: SyntaxNode) -> (int, int) {
    let b = encode_utf8(src);
    let starts = nl_starts(b);
    (
        starts[st.start_row as int] as int,
        if st.end_row + 1 < starts.len() {
            starts[st.end_row + 1] as int
        } else {
            b.len() as int
        },
    )
}

/// What inlining a call does to the call's file.
pub struct InlinePlan {
    /// The code that replaces the lines of the call's statement.
    pub inlined_text: String,
    /// Its number of lines.
    pub inlined_lines: u32,
    /// The file with the call's lines replaced.
    pub new_source: String,
}

/// The view of an optional node.
pub open spec fn opt_node(o: Option<&SyntaxNode>) -> Option<SyntaxNode> {
    match o {
        Some(n) => Some(*n),
        None => None,
    }
}

/// Inline a call: replace the lines of the call's statement (its parent
/// assignment, if its value is assigned) with the function's body, with
/// arguments for parameters and the receiver for `self`; the returned value
/// takes the place of the call's value.
pub fn plan_inline(
    source: &str,
    call: &SyntaxNode,
    parent: Option<&SyntaxNode>,
    def_source: &str,
    def: &SyntaxNode,
    name: &str,
    receiver: Option<&str>,
) -> (r: Result<InlinePlan, InlineError>)
    requires
        tree_ok(source@, *call),
        parent matches Some(p) ==> tree_ok(source@, *p),
        tree_ok(def_source@, *def),
        well_nested(*def),
        rows_ok(source@, stmt_node(*call, opt_node(parent))),
        body_reindentable(inline_body_spec(*call, source@, *def, def_source@, name@, opt_str_view(receiver))),
    ensures
        match r {
            Ok(p) => inline_body_spec(*call, source@, *def, def_source@, name@, opt_str_view(receiver)) matches Ok(
                (pre, ret),
            ) && {
                let code = inlined_code(pre, ret, indent_of(nth_line(source@, call.start_row as int)), opt_node(parent), source@);
                let range = stmt_lines(source@, stmt_node(*call, opt_node(parent)));
                &&& p.inlined_text@ == code
                &&& p.inlined_lines == lines(code).len() as u32
                &&& p.new_source@ == crate::syntax::span_replaced(source@, range.0, range.1, code)
            },
            Err(e) => inline_body_spec(*call, source@, *def, def_source@, name@, opt_str_view(receiver))
                == Err::<(Seq<char>, Option<Seq<char>>), _>(inline_error_message(e)),
        },
{
    let (pre, ret) = match inline_body(call, source, def, def_source, name, receiver) {
        Ok(x) => x,
        Err(e) => return Err(e),
    };
    let indent = crate::refactor::extract_method::get_indent(source, call.start_row);
    let ic = chars_of(indent.as_str());
    let code = build_inlined_code(&pre, &ret, &ic, parent, source);
    let n = lines_of(&code).len();
    let inlined_lines: u32 = #[verifier::truncate] (n as u32);
    let is_assign = match parent {
        Some(p) => kind_is(p, "assignment") || kind_is(p, "augmented_assignment") || kind_is(p, "variable_statement"),
        None => false,
    };
    let st: &SyntaxNode = if is_assign {
        parent.unwrap()
    } else {
        call
    };
    let starts = crate::refactor::line_starts(source);
    let len = source.as_bytes().len();
    proof {
        let b = encode_utf8(source@);
        crate::refactor::lemma_nl_starts(b);
        crate::refactor::lemma_nl_starts_boundary(source@);
        vstd::utf8::encode_utf8_valid_utf8(source@);
        vstd::utf8::is_char_boundary_start_end_of_seq(b);
    }
    let a = starts[st.start_row];
    let e = if st.end_row < starts.len() - 1 {
        starts[st.end_row + 1]
    } else {
        len
    };
    proof {
        let b = encode_utf8(source@);
        assert(span_ok(source@, a as int, b.len() as int));
        if st.end_row < starts.len() - 1 {
            assert(span_ok(source@, e as int, b.len() as int));
            assert(a < e);
        }
    }
    let code_s = string_of(&code);
    let new_source = crate::syntax::replace_span(source, a, e, code_s.as_str());
    Ok(InlinePlan { inlined_text: code_s, inlined_lines, new_source })
}

// ── Deleting the function, and warnings ───────────────────────────────────

/// Whether the inlined function is deleted (defined in this file and called
/// at most once from outside its own definition), and the warnings: about
/// other call sites, about a definition in another file, and about `self.`
/// references left in code inlined without a receiver.
pub open spec fn inline_notes(name: Seq<char>, cross_rel: Option<Seq<char>>, external: nat, self_warn: bool) -> (bool, Seq<Seq<char>>) {
    let can_delete = cross_rel is None && external <= 1;
    (
        can_delete,
        (if !can_delete && cross_rel is None {
            seq!["function '"@ + name + "' has multiple call sites \u{2014} not deleted"@]
        } else {
            Seq::empty()
        }) + (match cross_rel {
            Some(rel) => seq!["function '"@ + name + "' inlined from '"@ + rel + "' (not deleted from source)"@],
            None => Seq::empty(),
        }) + (if self_warn {
            if cross_rel is Some {
                seq!["inlined code contains 'self.' references \u{2014} may not work in this context"@]
            } else {
                seq!["inlined code contains 'self.' references"@]
            }
        } else {
            Seq::empty()
        }),
    )
}

/// The rows a definition spans, as the reference list counts them.
pub open spec fn def_rows(def: SyntaxNode) -> (u32, u32) {
    (def.start_row as u32, def.end_row as u32)
}

/// Decide whether to delete the inlined function and what to warn about.
/// `hits` are the references to the function's name found in the project;
/// `cross_rel` names the other file the function was defined in, if any.
pub fn inline_notes_for(
    def: &SyntaxNode,
    def_source: &str,
    name: &str,
    cross_rel: Option<&str>,
    receiver_given: bool,
    hits: &[ReferenceHit],
) -> (r: (bool, Vec<String>))
    requires
        tree_ok(def_source@, *def),
    ensures
        (r.0, string_texts(r.1@)) == inline_notes(
            name@,
            opt_str_view(cross_rel),
            external_count(hits@, def_rows(*def)),
            !receiver_given && crate::refactor::move_symbol::self_refs(*def, def_source@).len() > 0,
        ),
{
    let rows: (u32, u32) = (#[verifier::truncate] (def.start_row as u32), #[verifier::truncate] (def.end_row as u32));
    let external = count_external(hits, rows);
    let can_delete = cross_rel.is_none() && external <= 1;
    let mut w: Vec<String> = Vec::new();
    proof {
        reveal_with_fuel(concat_views, 6);
    }
    if !can_delete && cross_rel.is_none() {
        w.push(concat_strs(&["function '", name, "' has multiple call sites \u{2014} not deleted"]));
    }
    match cross_rel {
        Some(rel) => {
            w.push(concat_strs(&["function '", name, "' inlined from '", rel, "' (not deleted from source)"]));
        },
        None => {},
    }
    if !receiver_given {
        let refs = crate::refactor::move_symbol::collect_self_references(def, def_source);
        if refs.len() > 0 {
            if cross_rel.is_some() {
                w.push(concat_strs(&["inlined code contains 'self.' references \u{2014} may not work in this context"]));
            } else {
                w.push(concat_strs(&["inlined code contains 'self.' references"]));
            }
        }
        proof {
            let sr = crate::refactor::move_symbol::self_refs(*def, def_source@);
            let rv = refs@.map_values(|s: String| s@);
            if sr.len() > 0 {
                assert(sr.to_set().contains(sr[0]));
                if rv.len() == 0 {
                    assert(rv.to_set() =~= Set::<Seq<char>>::empty());
                }
            } else {
                assert(sr.to_set() =~= Set::<Seq<char>>::empty());
                if rv.len() > 0 {
                    assert(rv.to_set().contains(rv[0]));
                }
            }
        }
    }
    assert(string_texts(w@) =~= inline_notes(
        name@,
        opt_str_view(cross_rel),
        external_count(hits@, def_rows(*def)),
        !receiver_given && crate::refactor::move_symbol::self_refs(*def, def_source@).len() > 0,
    ).1);
    (can_delete, w)
}

// ── Cross-file definitions ─────────────────────────────────────────────────

/// A project file as the index lists it: its path, its project-relative
/// path, and the names of the functions it defines.
pub struct IndexedFile {
    pub path: String,
    pub relative: String,
    pub functions: Vec<String>,
}

/// The file defines a function named `name`.
pub open spec fn defines(f: IndexedFile, name: Seq<char>) -> bool {
    exists|i: int| 0 <= i < f.functions@.len() && f.functions@[i]@ == name
}

/// The positions of the files other than `current` that define `name`.
pub open spec fn defining_files(files: Seq<IndexedFile>, current: Seq<char>, name: Seq<char>, k: int) -> Seq<int>
    decreases k,
{
    if k <= 0 || k > files.len() {
        Seq::empty()
    } else {
        defining_files(files, current, name, k - 1) + if files[k - 1].path@ != current && defines(files[k - 1], name) {
            seq![k - 1]
        } else {
            Seq::empty()
        }
    }
}

/// Why no other file can supply the definition.
#[derive(Debug)]
pub enum CrossFileError {
    NotFound(String),
    /// The name, and the relative paths of the files that define it.
    Ambiguous(String, Vec<String>),
}

impl CrossFileError {
    /// The message shown to the user.
    pub fn message(&self) -> (r: String)
        ensures
            r@ == match self {
                CrossFileError::NotFound(n) => "cannot find definition of '"@ + n@
                    + "' in this file or any project file"@,
                CrossFileError::Ambiguous(n, fs) => "'"@ + n@ + "' found in "@ + decimal(fs@.len()) + " files (ambiguous): "@
                    + join(string_texts(fs@), ", "@),
            },
    {
        match self {
            CrossFileError::NotFound(n) => {
                let r = concat_strs(&["cannot find definition of '", n.as_str(), "' in this file or any project file"]);
                proof {
                    reveal_with_fuel(concat_views, 4);
                }
                r
            },
            CrossFileError::Ambiguous(n, fs) => {
                let mut parts: Vec<Vec<char>> = Vec::new();
                let mut i: usize = 0;
                while i < fs.len()
                    invariant
                        i <= fs@.len(),
                        parts@.map_values(|v: Vec<char>| v@) == string_texts(fs@).take(i as int),
                    decreases fs@.len() - i,
                {
                    let ghost prev = parts@.map_values(|v: Vec<char>| v@);
                    parts.push(chars_of(fs[i].as_str()));
                    assert(parts@.map_values(|v: Vec<char>| v@) =~= prev.push(fs@[i as int]@));
                    assert(string_texts(fs@).take(i + 1) =~= string_texts(fs@).take(i as int).push(fs@[i as int]@));
                    i += 1;
                }
                assert(string_texts(fs@).take(i as int) =~= string_texts(fs@));
                let sep = chars_of(", ");
                let joined = string_of(&join_lines(&parts, &sep));
                let count = decimal_string(fs.len());
                let r = concat_strs(&["'", n.as_str(), "' found in ", count.as_str(), " files (ambiguous): ", joined.as_str()]);
                proof {
                    reveal_with_fuel(concat_views, 7);
                }
                r
            },
        }
    }
}

/// Find the one project file other than `current` that defines `func_name`.
pub fn resolve_cross_file_function(func_name: &str, current: &str, files: &[IndexedFile]) -> (r: Result<usize, CrossFileError>)
    ensures
        match r {
            Ok(i) => defining_files(files@, current@, func_name@, files@.len() as int) == seq![i as int],
            Err(CrossFileError::NotFound(n)) => n@ == func_name@ && defining_files(
                files@,
                current@,
                func_name@,
                files@.len() as int,
            ).len() == 0,
            Err(CrossFileError::Ambiguous(n, fs)) => {
                let d = defining_files(files@, current@, func_name@, files@.len() as int);
                &&& n@ == func_name@
                &&& d.len() > 1
                &&& string_texts(fs@) == d.map_values(|j: int| files@[j].relative@)
            },
        },
{
    let mut found: Vec<usize> = Vec::new();
    let mut i: usize = 0;
    while i < files.len()
        invariant
            i <= files@.len(),
            found@.map_values(|j: usize| j as int) == defining_files(files@, current@, func_name@, i as int),
            forall|k: int| 0 <= k < found@.len() ==> #[trigger] found@[k] < i,
        decreases files@.len() - i,
    {
        let f = &files[i];
        let ghost prev = found@.map_values(|j: usize| j as int);
        if !str_eq(f.path.as_str(), current) {
            let mut has = false;
            let mut j: usize = 0;
            while j < f.functions.len()
                invariant
                    j <= f.functions@.len(),
                    has == exists|q: int| 0 <= q < j && f.functions@[q]@ == func_name@,
                decreases f.functions@.len() - j,
            {
                if str_eq(f.functions[j].as_str(), func_name) {
                    has = true;
                }
                j += 1;
            }
            if has {
                found.push(i);
                assert(found@.map_values(|j: usize| j as int) =~= prev.push(i as int));
            } else {
                assert(found@.map_values(|j: usize| j as int) =~= prev);
            }
        } else {
            assert(found@.map_values(|j: usize| j as int) =~= prev);
        }
        i += 1;
    }
    let ghost d = defining_files(files@, current@, func_name@, files@.len() as int);
    if found.len() == 0 {
        return Err(CrossFileError::NotFound(String::from_str(func_name)));
    }
    if found.len() == 1 {
        assert(d =~= seq![found@[0] as int]);
        return Ok(found[0]);
    }
    let mut rels: Vec<String> = Vec::new();
    let mut k: usize = 0;
    while k < found.len()
        invariant
            k <= found@.len(),
            d == found@.map_values(|j: usize| j as int),
            forall|q: int| 0 <= q < found@.len() ==> #[trigger] found@[q] < files@.len(),
            string_texts(rels@) == d.take(k as int).map_values(|j: int| files@[j].relative@),
        decreases found@.len() - k,
    {
        let ghost prev = string_texts(rels@);
        rels.push(String::from_str(files[found[k]].relative.as_str()));
        assert(d[k as int] == found@[k as int] as int);
        assert(string_texts(rels@) =~= prev.push(files@[d[k as int]].relative@));
        assert(d.take(k + 1) =~= d.take(k as int).push(d[k as int]));
        assert(string_texts(rels@) =~= d.take(k + 1).map_values(|j: int| files@[j].relative@));
        k += 1;
    }
    assert(d.take(k as int) =~= d);
    Err(CrossFileError::Ambiguous(String::from_str(func_name), rels))
}

// ── Inlining at a position of a text ───────────────────────────────────────

/// What inline-method plans at a position: the plan, whether the function
/// can go, and the warnings.
pub struct InlineAt {
    pub plan: InlinePlan,
    pub can_delete: bool,
    pub warnings: Vec<String>,
}

/// What planning the inlining of a call gives: see `plan_inline`.
#[verifier::opaque]
pub open spec fn inline_plan_of(
    src: Seq<char>,
    call: SyntaxNode,
    parent: Option<SyntaxNode>,
    def_src: Seq<char>,
    def: SyntaxNode,
    name: Seq<char>,
    receiver: Option<Seq<char>>,
    r: Result<InlinePlan, InlineError>,
) -> bool {
    match r {
        Ok(p) => inline_body_spec(call, src, def, def_src, name, receiver) matches Ok((pre, ret)) && {
            let code = inlined_code(pre, ret, indent_of(nth_line(src, call.start_row as int)), parent, src);
            let range = stmt_lines(src, stmt_node(call, parent));
            &&& p.inlined_text@ == code
            &&& p.inlined_lines == lines(code).len() as u32
            &&& p.new_source@ == crate::syntax::span_replaced(src, range.0, range.1, code)
        },
        Err(e) => inline_body_spec(call, src, def, def_src, name, receiver) == Err::<(Seq<char>, Option<Seq<char>>), _>(
            inline_error_message(e),
        ),
    }
}

/// What inline-method gives at the 1-based `line` and `column` of a text,
/// the called function being defined in `def_source` (the text itself when
/// `None`): `None` when the parser gives no tree of either text, or no chain
/// of nodes at the position, that fits; when the call's statement lies
/// outside the text; or when the function's body cannot be re-indented.
#[verifier::opaque]
pub open spec fn inline_at(
    src: Seq<char>,
    line: usize,
    column: usize,
    def_source: Option<Seq<char>>,
    cross_rel: Option<Seq<char>>,
    hits: Seq<ReferenceHit>,
    r: Option<Result<InlineAt, InlineError>>,
) -> bool {
    let dsrc = match def_source {
        Some(d) => d,
        None => src,
    };
    let (row, col) = ((line - 1) as usize, (column - 1) as usize);
    match (fitting_tree(src), fitting_tree(dsrc), chain_at(src, row, col, row, col)) {
        (Some(root), Some(droot), Some(c)) => match first_where(c, |n: SyntaxNode| call_like(n)) {
            None => r == Some(Err::<InlineAt, InlineError>(InlineError::NoCallAt(line, column))),
            Some(i) => {
                let call = c[i];
                let parent = if i + 1 < c.len() {
                    Some(c[i + 1])
                } else {
                    None
                };
                match call_target(call, src, root) {
                    Err(m) => r matches Some(Err(e)) && inline_error_message(e) == m,
                    Ok((name, recv, _)) => match crate::refactor::named_decl(droot, dsrc, name) {
                        None => r matches Some(Err(InlineError::NotAFunction(n))) && n@ == name,
                        Some(def) => if !rows_ok(src, stmt_node(call, parent)) || !body_reindentable(
                            inline_body_spec(call, src, def, dsrc, name, recv),
                        ) {
                            r is None
                        } else {
                            r matches Some(x) && match x {
                                Ok(p) => inline_plan_of(src, call, parent, dsrc, def, name, recv, Ok(p.plan)) && (
                                p.can_delete,
                                string_texts(p.warnings@),
                            ) == inline_notes(
                                    name,
                                    cross_rel,
                                    external_count(hits, def_rows(def)),
                                    recv is None && crate::refactor::move_symbol::self_refs(def, dsrc).len() > 0,
                                ),
                                Err(e) => inline_plan_of(src, call, parent, dsrc, def, name, recv, Err(e)),
                            }
                        },
                    },
                }
            },
        },
        _ => r is None,
    }
}

fn stmt_rows_ok(source: &str, call: &SyntaxNode, parent: Option<&SyntaxNode>) -> (r: bool)
    ensures
        r == rows_ok(source@, stmt_node(*call, opt_node(parent))),
{
    let is_assign = match parent {
        Some(p) => kind_is(p, "assignment") || kind_is(p, "augmented_assignment") || kind_is(p, "variable_statement"),
        None => false,
    };
    let st: &SyntaxNode = if is_assign {
        parent.unwrap()
    } else {
        call
    };
    proof {
        vstd::utf8::encode_utf8_valid_utf8(source@);
    }
    let n = crate::refactor::line_starts(source).len();
    assert(source.spec_bytes() == encode_utf8(source@));
    st.start_row <= st.end_row && st.start_row < n
}

fn plan_inline_checked(
    source: &str,
    call: &SyntaxNode,
    parent: Option<&SyntaxNode>,
    def_source: &str,
    def: &SyntaxNode,
    name: &str,
    receiver: Option<&str>,
) -> (r: Result<InlinePlan, InlineError>)
    requires
        tree_ok(source@, *call),
        parent matches Some(p) ==> tree_ok(source@, *p),
        tree_ok(def_source@, *def),
        well_nested(*def),
        rows_ok(source@, stmt_node(*call, opt_node(parent))),
        body_reindentable(inline_body_spec(*call, source@, *def, def_source@, name@, opt_str_view(receiver))),
    ensures
        inline_plan_of(source@, *call, opt_node(parent), def_source@, *def, name@, opt_str_view(receiver), r),
{
    let r = plan_inline(source, call, parent, def_source, def, name, receiver);
    assert(inline_plan_of(source@, *call, opt_node(parent), def_source@, *def, name@, opt_str_view(receiver), r)) by {
        reveal(inline_plan_of);
    }
    r
}

/// Plan inline-method at the 1-based `line` and `column` of a source text,
/// parsing it (and `def_source`, the text that defines the called function
/// when another file does) first: see `inline_at`. `cross_rel` names that
/// other file; `hits` are the project's references to the function.
#[verifier::spinoff_prover]
#[verifier::rlimit(80)]
pub fn plan_inline_at(
    source: &str,
    line: usize,
    column: usize,
    def_source: Option<&str>,
    cross_rel: Option<&str>,
    hits: &[ReferenceHit],
) -> (r: Option<Result<InlineAt, InlineError>>)
    requires
        line >= 1,
        column >= 1,
    ensures
        inline_at(source@, line, column, opt_str_view(def_source), opt_str_view(cross_rel), hits@, r),
{
    proof {
        reveal(inline_at);
    }
    let root = match parse_fitting(source) {
        Some(t) => t,
        None => {
            return None;
        },
    };
    let dtext: &str = match def_source {
        Some(d) => d,
        None => source,
    };
    let droot = match parse_fitting(dtext) {
        Some(t) => t,
        None => {
            return None;
        },
    };
    let chain = match nodes_at(source, line - 1, column - 1, line - 1, column - 1) {
        Some(c) => c,
        None => {
            return None;
        },
    };
    let ci = match find_call_at(chain.as_slice()) {
        Some(i) => i,
        None => {
            return Some(Err(InlineError::NoCallAt(line, column)));
        },
    };
    let call = &chain[ci];
    let parent = if ci + 1 < chain.len() {
        Some(&chain[ci + 1])
    } else {
        None
    };
    assert(crate::parse::fits(source@, chain@[ci as int]));
    assert(parent matches Some(p) ==> crate::parse::fits(source@, *p));
    let target = match resolve_call_target(call, source, &root) {
        Ok(t) => t,
        Err(e) => {
            return Some(Err(e));
        },
    };
    let name = target.method_name;
    let receiver: Option<&str> = match &target.receiver_expr {
        Some(x) => Some(x.as_str()),
        None => None,
    };
    assert(opt_str_view(receiver) == opt_view(target.receiver_expr));
    let def = match crate::refactor::find_top_decl(&droot, dtext, name.as_str()) {
        Some(d) => d,
        None => {
            return Some(Err(InlineError::NotAFunction(name)));
        },
    };
    proof {
        let k = choose|k: int| 0 <= k < droot.children@.len() && droot.children@[k] == *def;
        assert(well_nested(droot.children@[k]));
    }
    if !stmt_rows_ok(source, call, parent) || !inline_reindentable(call, source, def, dtext, name.as_str(), receiver) {
        return None;
    }
    match plan_inline_checked(source, call, parent, dtext, def, name.as_str(), receiver) {
        Err(e) => Some(Err(e)),
        Ok(p) => {
            let (can_delete, warnings) = inline_notes_for(def, dtext, name.as_str(), cross_rel, receiver.is_some(), hits);
            Some(Ok(InlineAt { plan: p, can_delete, warnings }))
        },
    }
}

/// The call at the 1-based `line` and `column` of a source text, parsing it
/// first, and what it calls: `None` when the parser gives no tree, or no
/// chain of nodes at the position, that fits the text.
pub fn call_target_at(source: &str, line: usize, column: usize) -> (r: Option<Result<CallTarget, InlineError>>)
    requires
        line >= 1,
        column >= 1,
    ensures
        r is None <==> (fitting_tree(source@) is None || chain_at(
            source@,
            (line - 1) as usize,
            (column - 1) as usize,
            (line - 1) as usize,
            (column - 1) as usize,
        ) is None),
        r matches Some(x) ==> chain_at(source@, (line - 1) as usize, (column - 1) as usize, (line - 1) as usize, (column - 1) as usize)
            matches Some(c) && match first_where(c, |n: SyntaxNode| call_like(n)) {
            None => x matches Err(InlineError::NoCallAt(l, k)) && l == line && k == column,
            Some(i) => match x {
                Ok(t) => call_target(c[i], source@, fitting_tree(source@)->0) == Ok::<_, Seq<char>>(target_view(t)),
                Err(e) => call_target(c[i], source@, fitting_tree(source@)->0) == Err::<
                    (Seq<char>, Option<Seq<char>>, Option<Seq<char>>),
                    _,
                >(inline_error_message(e)),
            },
        },
{
    let root = match parse_fitting(source) {
        Some(t) => t,
        None => {
            return None;
        },
    };
    let chain = match nodes_at(source, line - 1, column - 1, line - 1, column - 1) {
        Some(c) => c,
        None => {
            return None;
        },
    };
    match find_call_at(chain.as_slice()) {
        Some(i) => {
            assert(crate::parse::fits(source@, chain@[i as int]));
            Some(resolve_call_target(&chain[i], source, &root))
        },
        None => Some(Err(InlineError::NoCallAt(line, column))),
    }
}

} // verus!
