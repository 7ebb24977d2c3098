//! Invert-if: negate an `if` condition and swap its branches.
use vstd::prelude::*;
use vstd::string::StringSliceAdditionalSpecFns;
use vstd::utf8::{encode_utf8, encode_utf8_valid_utf8, is_char_boundary, is_char_boundary_start_end_of_seq};

use crate::refactor::inline_method::{bytes_at, bytes_match};
use crate::refactor::{lemma_nl_starts, lemma_nl_starts_boundary, nl_starts};
use crate::syntax::{
    SyntaxNode, first_child_of_kind, first_where, kind_child, kind_is, lemma_boundary_after_ascii,
    first_named, first_named_child, lemma_first_where, named_child_count, named_children, slice_str, span_ok, text_between,
    text_of, tree_ok,
};
use crate::text::{
    chars_of, extend, extend_str, find, first_occurrence, has_prefix, indent_of, lead_ws_len,
    lemma_lead_ws_bound, line_at, nth_line, seq_eq, slice_of, starts_with, string_of, trim,
    trimmed,
};

use crate::parse::{fitting_tree, parse_fitting};

verus! {

// ── Comparison flipping ────────────────────────────────────────────────────

/// Replace the first ` op ` in `t` by ` flipped `.
pub open spec fn flip_with(t: Seq<char>, op: Seq<char>, flipped: Seq<char>) -> Option<Seq<char>> {
    let pat = " "@ + op + " "@;
    match first_occurrence(t, pat) {
        Some(p) => Some(t.take(p) + " "@ + flipped + " "@ + t.skip(p + pat.len())),
        None => None,
    }
}

/// Flip comparison: the first of `!=`, `<=`, `>=`, `==`, `<`, `>` (checked in
/// that order) that occurs surrounded by spaces is replaced by its negation.
pub open spec fn flipped(t: Seq<char>) -> Option<Seq<char>> {
    if flip_with(t, "!="@, "=="@) is Some {
        flip_with(t, "!="@, "=="@)
    } else if flip_with(t, "<="@, ">"@) is Some {
        flip_with(t, "<="@, ">"@)
    } else if flip_with(t, ">="@, "<"@) is Some {
        flip_with(t, ">="@, "<"@)
    } else if flip_with(t, "=="@, "!="@) is Some {
        flip_with(t, "=="@, "!="@)
    } else if flip_with(t, "<"@, ">="@) is Some {
        flip_with(t, "<"@, ">="@)
    } else {
        flip_with(t, ">"@, "<="@)
    }
}

fn flip_one(t: &[char], op: &str, fl: &str) -> (r: Option<Vec<char>>)
    ensures
        match r {
            Some(v) => flip_with(t@, op@, fl@) == Some(v@),
            None => flip_with(t@, op@, fl@) is None,
        },
{
    let mut pat: Vec<char> = Vec::new();
    extend_str(&mut pat, " ");
    extend_str(&mut pat, op);
    extend_str(&mut pat, " ");
    let ghost pt = " "@ + op@ + " "@;
    assert(pat@ == pt);
    match find(t, &pat) {
        Some(pos) => {
            let n = t.len();
            let m = pat.len();
            assert(pos + m <= n);
            let lhs = slice_of(t, 0, pos);
            let rhs = slice_of(t, pos + pat.len(), t.len());
            assert(lhs@ =~= t@.take(pos as int));
            assert(rhs@ =~= t@.skip(pos + pt.len()));
            let mut out: Vec<char> = lhs;
            extend_str(&mut out, " ");
            extend_str(&mut out, fl);
            extend_str(&mut out, " ");
            extend(&mut out, &rhs);
            Some(out)
        },
        None => None,
    }
}

fn flip_chars(t: &[char]) -> (r: Option<Vec<char>>)
    ensures
        match r {
            Some(v) => flipped(t@) == Some(v@),
            None => flipped(t@) is None,
        },
{
    let r = flip_one(t, "!=", "==");
    if r.is_some() {
        return r;
    }
    let r = flip_one(t, "<=", ">");
    if r.is_some() {
        return r;
    }
    let r = flip_one(t, ">=", "<");
    if r.is_some() {
        return r;
    }
    let r = flip_one(t, "==", "!=");
    if r.is_some() {
        return r;
    }
    let r = flip_one(t, "<", ">=");
    if r.is_some() {
        return r;
    }
    flip_one(t, ">", "<=")
}

/// Flip comparison: `x > 0` → `x <= 0`, `x == y` → `x != y`, etc.
pub fn flip_comparison(text: &str) -> (r: Option<String>)
    ensures
        match r {
            Some(s) => flipped(text@) == Some(s@),
            None => flipped(text@) is None,
        },
{
    let t = chars_of(text);
    match flip_chars(&t) {
        Some(v) => Some(string_of(&v)),
        None => None,
    }
}

// ── Simple negation ────────────────────────────────────────────────────────

/// Negate a simple sub-expression: drop a leading `not `, swap `true`/`false`,
/// flip a comparison, or else prefix `not `.
pub open spec fn negated(t: Seq<char>) -> Seq<char> {
    if starts_with(t, "not "@) {
        t.skip(4)
    } else if t == "true"@ {
        "false"@
    } else if t == "false"@ {
        "true"@
    } else if flipped(t) is Some {
        flipped(t)->0
    } else {
        "not "@ + t
    }
}

fn negate_chars(t: &[char]) -> (r: Vec<char>)
    ensures
        r@ == negated(t@),
{
    let not_ = chars_of("not ");
    if has_prefix(t, &not_) {
        proof {
            reveal_strlit("not ");
        }
        return slice_of(t, 4, t.len());
    }
    let tr = chars_of("true");
    let fa = chars_of("false");
    if seq_eq(t, &tr) {
        return fa;
    }
    if seq_eq(t, &fa) {
        return tr;
    }
    match flip_chars(t) {
        Some(v) => v,
        None => {
            let mut out = not_;
            extend(&mut out, t);
            out
        },
    }
}

/// Negate a simple sub-expression (text-based, for De Morgan operands).
pub fn negate_simple(text: &str) -> (r: String)
    ensures
        r@ == negated(text@),
{
    let t = chars_of(text);
    let v = negate_chars(&t);
    string_of(&v)
}

// ── De Morgan ──────────────────────────────────────────────────────────────

/// `(`/`)` change the nesting depth by one.
pub open spec fn depth_step(c: u8) -> int {
    if c == 40u8 {
        1
    } else if c == 41u8 {
        -1
    } else {
        0
    }
}

/// The bytes of ` and `.
pub open spec fn and_bytes() -> Seq<u8> {
    seq![32u8, 97u8, 110u8, 100u8, 32u8]
}

/// The bytes of ` or `.
pub open spec fn or_bytes() -> Seq<u8> {
    seq![32u8, 111u8, 114u8, 32u8]
}

/// Scan from byte `i` at nesting depth `d` for ` and ` / ` or ` at depth 0.
pub open spec fn scan_bool_op(b: Seq<u8>, i: int, d: int) -> Option<(int, Seq<char>)>
    decreases b.len() - i,
{
    if i < 0 || i >= b.len() {
        None
    } else {
        let d2 = d + depth_step(b[i]);
        if d2 == 0 && bytes_at(b, i, and_bytes()) {
            Some((i, "and"@))
        } else if d2 == 0 && bytes_at(b, i, or_bytes()) {
            Some((i, "or"@))
        } else {
            scan_bool_op(b, i + 1, d2)
        }
    }
}

/// Every position the scan looks at with depth 0 starts a character (the
/// scan slices the text there).
pub open spec fn scan_ok(b: Seq<u8>, i: int, d: int) -> bool
    decreases b.len() - i,
{
    if i < 0 || i >= b.len() {
        true
    } else {
        let d2 = d + depth_step(b[i]);
        &&& (d2 == 0 ==> is_char_boundary(b, i))
        &&& (d2 == 0 && (bytes_at(b, i, and_bytes()) || bytes_at(b, i, or_bytes())) || scan_ok(
            b,
            i + 1,
            d2,
        ))
    }
}

/// The scan's preconditions: its slices fall on character boundaries and
/// its depth counter stays in range.
pub open spec fn bool_op_ok(text: &str) -> bool {
    bool_op_ok_chars(text@)
}

/// `bool_op_ok` of a text given by its characters.
pub open spec fn bool_op_ok_chars(t: Seq<char>) -> bool {
    &&& scan_ok(encode_utf8(t), 0, 0)
    &&& encode_utf8(t).len() < 0x8000_0000
}

/// Find top-level `and` / `or` (not inside parentheses).
pub fn find_top_level_bool_op(text: &str) -> (r: Option<(usize, &'static str)>)
    requires
        bool_op_ok(text),
    ensures
        match r {
            Some((p, op)) => scan_bool_op(text.spec_bytes(), 0, 0) == Some((p as int, op@)),
            None => scan_bool_op(text.spec_bytes(), 0, 0) is None,
        },
{
    let bytes = text.as_bytes();
    let ghost b = bytes@;
    let and_: [u8; 5] = [32u8, 97u8, 110u8, 100u8, 32u8];
    let or_: [u8; 4] = [32u8, 111u8, 114u8, 32u8];
    assert(and_@ =~= and_bytes());
    assert(or_@ =~= or_bytes());
    let mut depth: i32 = 0;
    let mut i: usize = 0;
    while i < bytes.len()
        invariant
            b == bytes@,
            b == text.spec_bytes(),
            b.len() < 0x8000_0000,
            and_@ == and_bytes(),
            or_@ == or_bytes(),
            i <= b.len(),
            -(i as int) <= depth <= i,
            scan_bool_op(b, 0, 0) == scan_bool_op(b, i as int, depth as int),
        decreases b.len() - i,
    {
        if bytes[i] == 40u8 {
            depth += 1;
        } else if bytes[i] == 41u8 {
            depth -= 1;
        }
        if depth == 0 {
            if crate::refactor::inline_method::bytes_match(bytes, i, &and_) {
                return Some((i, "and"));
            }
            if crate::refactor::inline_method::bytes_match(bytes, i, &or_) {
                return Some((i, "or"));
            }
        }
        i += 1;
    }
    None
}

/// `(`/`)` change the nesting depth by one.
pub open spec fn char_depth_step(c: char) -> int {
    if c == '(' {
        1
    } else if c == ')' {
        -1
    } else {
        0
    }
}

/// ` or ` as characters.
pub open spec fn or_chars() -> Seq<char> {
    seq![' ', 'o', 'r', ' ']
}

/// ` and ` as characters.
pub open spec fn and_chars() -> Seq<char> {
    seq![' ', 'a', 'n', 'd', ' ']
}

/// Scanning from position `i` at nesting depth `d`: the first position
/// where `op` occurs outside all parentheses.
pub open spec fn top_op(t: Seq<char>, op: Seq<char>, i: int, d: int) -> Option<int>
    decreases t.len() - i,
{
    if i < 0 || i >= t.len() {
        None
    } else {
        let d2 = d + char_depth_step(t[i]);
        if d2 == 0 && crate::text::occurs_at(t, op, i) {
            Some(i)
        } else {
            top_op(t, op, i + 1, d2)
        }
    }
}

/// The text holds a top-level `and` or `or`.
pub open spec fn has_top_bool_op(t: Seq<char>) -> bool {
    top_op(t, or_chars(), 0, 0) is Some || top_op(t, and_chars(), 0, 0) is Some
}

/// The negation of a De Morgan operand: a compound operand is negated as a
/// whole in parentheses, a simple one by `negated`.
pub open spec fn negated_operand(u: Seq<char>) -> Seq<char> {
    if has_top_bool_op(u) {
        "not ("@ + u + ")"@
    } else {
        negated(u)
    }
}

/// Apply De Morgan's law at the operator that binds loosest: the first
/// top-level `or`, else the first top-level `and`. Both sides, trimmed, are
/// negated and the operator swapped.
pub open spec fn de_morgan(src: Seq<char>) -> Option<Seq<char>> {
    let split = match top_op(src, or_chars(), 0, 0) {
        Some(p) => Some((p, 4int, "and"@)),
        None => match top_op(src, and_chars(), 0, 0) {
            Some(p) => Some((p, 5int, "or"@)),
            None => None,
        },
    };
    match split {
        Some((pos, w, nop)) => {
            let lhs = trim(src.take(pos));
            let rhs = trim(src.skip(pos + w));
            Some(negated_operand(lhs) + " "@ + nop + " "@ + negated_operand(rhs))
        },
        None => None,
    }
}

proof fn lemma_top_op_range(t: Seq<char>, op: Seq<char>, i: int, d: int)
    ensures
        top_op(t, op, i, d) matches Some(p) ==> i <= p < t.len() && crate::text::occurs_at(t, op, p),
    decreases t.len() - i,
{
    if 0 <= i < t.len() {
        lemma_top_op_range(t, op, i + 1, d + char_depth_step(t[i]));
    }
}

/// The first top-level occurrence of `op` (outside parentheses).
fn find_top_op(t: &[char], op: &[char]) -> (r: Option<usize>)
    ensures
        match r {
            Some(p) => top_op(t@, op@, 0, 0) == Some(p as int) && p < t@.len() && crate::text::occurs_at(t@, op@, p as int),
            None => top_op(t@, op@, 0, 0) is None,
        },
{
    let mut opens: usize = 0;
    let mut closes: usize = 0;
    let mut i: usize = 0;
    proof {
        lemma_top_op_range(t@, op@, 0, 0);
    }
    while i < t.len()
        invariant
            i <= t@.len(),
            opens <= i,
            closes <= i,
            top_op(t@, op@, 0, 0) == top_op(t@, op@, i as int, opens - closes),
        decreases t@.len() - i,
    {
        if t[i] == '(' {
            opens += 1;
        } else if t[i] == ')' {
            closes += 1;
        }
        if opens == closes && crate::text::matches_at(t, op, i) {
            return Some(i);
        }
        i += 1;
    }
    None
}

fn negate_operand(u: &[char]) -> (r: Vec<char>)
    ensures
        r@ == negated_operand(u@),
{
    let or_ = [' ', 'o', 'r', ' '];
    let and_ = [' ', 'a', 'n', 'd', ' '];
    assert(or_@ =~= or_chars());
    assert(and_@ =~= and_chars());
    if find_top_op(u, &or_).is_some() || find_top_op(u, &and_).is_some() {
        let mut out: Vec<char> = Vec::new();
        extend_str(&mut out, "not (");
        extend(&mut out, u);
        extend_str(&mut out, ")");
        out
    } else {
        negate_chars(u)
    }
}

/// Apply De Morgan's law: `a and b` → `not a or not b`, `a or b` → `not a and not b`.
/// Splits at the top-level operator that binds loosest (`or` before `and`),
/// so that the result is the negation of the whole text.
pub fn apply_de_morgan(text: &str) -> (r: Option<String>)
    ensures
        match r {
            Some(s) => de_morgan(text@) == Some(s@),
            None => de_morgan(text@) is None,
        },
{
    let t = chars_of(text);
    let or_ = [' ', 'o', 'r', ' '];
    let and_ = [' ', 'a', 'n', 'd', ' '];
    assert(or_@ =~= or_chars());
    assert(and_@ =~= and_chars());
    let (pos, w, is_or) = match find_top_op(&t, &or_) {
        Some(p) => {
            assert(p + 4 <= t@.len());
            (p, 4usize, true)
        },
        None => match find_top_op(&t, &and_) {
            Some(p) => {
                assert(p + 5 <= t@.len());
                (p, 5usize, false)
            },
            None => return None,
        },
    };
    proof {
        lemma_top_op_range(t@, or_@, 0, 0);
        lemma_top_op_range(t@, and_@, 0, 0);
    }
    assert(is_or ==> w == 4 && top_op(t@, or_@, 0, 0) == Some(pos as int));
    assert(!is_or ==> w == 5 && top_op(t@, and_@, 0, 0) == Some(pos as int));
    let n = t.len();
    assert(pos + w <= n);
    let lhs = slice_of(&t, 0, pos);
    let rhs = slice_of(&t, pos + w, n);
    assert(lhs@ =~= t@.take(pos as int));
    assert(rhs@ =~= t@.skip(pos + w));
    let lt = trimmed(&lhs);
    let rt = trimmed(&rhs);
    let mut out = negate_operand(&lt);
    extend_str(&mut out, " ");
    if is_or {
        extend_str(&mut out, "and");
    } else {
        extend_str(&mut out, "or");
    }
    extend_str(&mut out, " ");
    let nr = negate_operand(&rt);
    extend(&mut out, &nr);
    Some(string_of(&out))
}

// ── Tree helpers ───────────────────────────────────────────────────────────

/// The text a node covers (`source[start..end]`).
pub fn node_text(node: &SyntaxNode, source: &str) -> (r: String)
    requires
        span_ok(source@, node.start_byte as int, node.end_byte as int),
    ensures
        r@ == text_of(source@, *node),
{
    crate::syntax::node_text(node, source)
}

/// Leading whitespace of line `line` (0-based), empty when there is no such line.
pub fn get_line_indent(source: &str, line: usize) -> (r: String)
    ensures
        r@ == indent_of(nth_line(source@, line as int)),
{
    crate::refactor::extract_method::get_indent(source, line)
}

/// Byte offset where line `line` (0-based) starts; the text's length when there is no such line.
pub open spec fn line_offset(b: Seq<u8>, line: int) -> int {
    if 0 <= line < nl_starts(b).len() {
        nl_starts(b)[line] as int
    } else {
        b.len() as int
    }
}

/// Byte offset of the start of line `line` (0-based).
pub fn line_start_offset(source: &str, line: usize) -> (r: usize)
    ensures
        r == line_offset(source.spec_bytes(), line as int),
{
    let starts = crate::refactor::line_starts(source);
    if line < starts.len() {
        starts[line]
    } else {
        source.as_bytes().len()
    }
}

/// A line feed at the start of a text is dropped.
pub open spec fn strip_leading_nl(t: Seq<char>) -> Seq<char> {
    if t.len() > 0 && t[0] == '\n' {
        t.skip(1)
    } else {
        t
    }
}

/// A body node's text without the line feed that opens it.
pub open spec fn body_text(n: SyntaxNode, src: Seq<char>) -> Seq<char> {
    strip_leading_nl(text_of(src, n))
}

/// Get body text from a body node, stripping the leading newline that
/// tree-sitter includes (the newline between `:` and the body content).
pub fn body_lines(body_node: &SyntaxNode, source: &str) -> (r: String)
    requires
        span_ok(source@, body_node.start_byte as int, body_node.end_byte as int),
    ensures
        r@ == body_text(*body_node, source@),
{
    let raw = crate::syntax::node_text(body_node, source);
    let v = chars_of(raw.as_str());
    if v.len() > 0 && v[0] == '\n' {
        let t = slice_of(&v, 1, v.len());
        assert(t@ =~= v@.skip(1));
        string_of(&t)
    } else {
        raw
    }
}

/// The body text of an `elif`/`else` clause: its first `body` child.
#[verifier::opaque]
pub open spec fn clause_body(c: SyntaxNode, src: Seq<char>) -> Option<Seq<char>> {
    match kind_child(c, "body"@) {
        Some(i) => Some(body_text(c.children@[i], src)),
        None => None,
    }
}

/// Get the body lines from an elif_clause or else_clause.
pub fn get_clause_body_lines(clause: &SyntaxNode, source: &str) -> (r: Option<String>)
    requires
        tree_ok(source@, *clause),
    ensures
        match r {
            Some(s) => clause_body(*clause, source@) == Some(s@),
            None => clause_body(*clause, source@) is None,
        },
{
    reveal(clause_body);
    match first_child_of_kind(clause, "body") {
        Some(i) => {
            assert(tree_ok(source@, clause.children@[i as int]));
            Some(body_lines(&clause.children[i], source))
        },
        None => None,
    }
}

/// A condition child: named, and not a body, clause or comment.
pub open spec fn is_condition(c: SyntaxNode) -> bool {
    c.is_named && !(c.kind@ == "body"@ || c.kind@ == "elif_clause"@ || c.kind@ == "else_clause"@
        || c.kind@ == "comment"@)
}

fn is_condition_node(c: &SyntaxNode) -> (r: bool)
    ensures
        r == is_condition(*c),
{
    c.is_named && !(kind_is(c, "body") || kind_is(c, "elif_clause") || kind_is(c, "else_clause")
        || kind_is(c, "comment"))
}

/// Index of the first condition child.
pub open spec fn condition_index(n: SyntaxNode) -> Option<int> {
    first_where(n.children@, |c: SyntaxNode| is_condition(c))
}

fn condition_child(node: &SyntaxNode) -> (r: Option<usize>)
    ensures
        match r {
            Some(i) => i < node.children@.len() && condition_index(*node) == Some(i as int),
            None => condition_index(*node) is None,
        },
{
    let ghost p = |c: SyntaxNode| is_condition(c);
    let mut i: usize = 0;
    while i < node.children.len()
        invariant
            i <= node.children@.len(),
            p == (|c: SyntaxNode| is_condition(c)),
            forall|j: int| 0 <= j < i ==> !p(#[trigger] node.children@[j]),
        decreases node.children@.len() - i,
    {
        if is_condition_node(&node.children[i]) {
            proof {
                lemma_first_where(node.children@, p, i as int);
            }
            return Some(i);
        }
        i += 1;
    }
    None
}

/// The condition text of an `elif` clause.
#[verifier::opaque]
pub open spec fn elif_condition(c: SyntaxNode, src: Seq<char>) -> Option<Seq<char>> {
    match condition_index(c) {
        Some(i) => Some(text_of(src, c.children@[i])),
        None => None,
    }
}

/// The condition text of an `elif` clause.
pub fn get_elif_condition(elif: &SyntaxNode, source: &str) -> (r: Option<String>)
    requires
        tree_ok(source@, *elif),
    ensures
        match r {
            Some(s) => elif_condition(*elif, source@) == Some(s@),
            None => elif_condition(*elif, source@) is None,
        },
{
    reveal(elif_condition);
    match condition_child(elif) {
        Some(i) => {
            assert(tree_ok(source@, elif.children@[i as int]));
            Some(crate::syntax::node_text(&elif.children[i], source))
        },
        None => None,
    }
}

/// Replace from the start of a node's first line to the node's end with `rep`.
pub open spec fn spliced(src: Seq<char>, n: SyntaxNode, rep: Seq<char>) -> Seq<char> {
    let b = encode_utf8(src);
    text_between(src, 0, line_offset(b, n.start_row as int)) + rep + text_between(
        src,
        n.end_byte as int,
        b.len() as int,
    )
}

/// Replace an AST node's range in the source with new text.
pub fn splice(source: &str, node: &SyntaxNode, replacement: &str) -> (r: String)
    requires
        span_ok(source@, node.start_byte as int, node.end_byte as int),
    ensures
        r@ == spliced(source@, *node, replacement@),
{
    let start = line_start_offset(source, node.start_row);
    let n = source.as_bytes().len();
    proof {
        let b = source.spec_bytes();
        lemma_nl_starts(b);
        lemma_nl_starts_boundary(source@);
        encode_utf8_valid_utf8(source@);
        is_char_boundary_start_end_of_seq(b);
        if (node.start_row as int) < nl_starts(b).len() {
            assert(span_ok(source@, nl_starts(b)[node.start_row as int] as int, b.len() as int));
        }
    }
    let a = slice_str(source, 0, start);
    let c = slice_str(source, node.end_byte, n);
    let mut out = String::new();
    crate::text::push_str(&mut out, a.as_str());
    crate::text::push_str(&mut out, replacement);
    crate::text::push_str(&mut out, c.as_str());
    out
}

// ── Condition negation ─────────────────────────────────────────────────────

/// The negation of a condition node: `not x`/`!x` lose the operator;
/// `and`/`or` go through De Morgan; comparisons flip; other binary operators
/// become `not (…)`; a parenthesised single expression is negated inside;
/// `true`/`false` swap; anything else gains `not `.
pub open spec fn negation(n: SyntaxNode, src: Seq<char>) -> Seq<char>
    decreases n,
{
    let ct = text_of(src, n);
    if n.kind@ == "unary_operator"@ {
        if starts_with(ct, "not "@) {
            ct.skip(4)
        } else if starts_with(ct, "!"@) {
            ct.skip(1)
        } else {
            "not "@ + ct
        }
    } else if n.kind@ == "binary_operator"@ {
        match de_morgan(ct) {
            Some(r) => r,
            None => match flipped(ct) {
                Some(r) => r,
                None => "not ("@ + ct + ")"@,
            },
        }
    } else if n.kind@ == "parenthesized_expression"@ {
        if named_children(n.children@).len() == 1 {
            match first_named(n) {
                Some(i) => if 0 <= i < n.children@.len() {
                    negation(n.children@[i], src)
                } else {
                    "not "@ + ct
                },
                None => "not "@ + ct,
            }
        } else {
            "not "@ + ct
        }
    } else if n.kind@ == "true"@ {
        "false"@
    } else if n.kind@ == "false"@ {
        "true"@
    } else {
        "not "@ + ct
    }
}

/// Negate a GDScript condition, applying De Morgan's law where appropriate.
/// Uses AST node kind for dispatch, text-based helpers for the transform.
pub fn negate_condition(node: &SyntaxNode, source: &str) -> (r: String)
    requires
        tree_ok(source@, *node),
    ensures
        r@ == negation(*node, source@),
    decreases node,
{
    if kind_is(node, "unary_operator") {
        let ct = crate::syntax::node_text(node, source);
        let v = chars_of(ct.as_str());
        let not_ = chars_of("not ");
        let bang = chars_of("!");
        proof {
            reveal_strlit("not ");
            reveal_strlit("!");
        }
        if has_prefix(&v, &not_) {
            let t = slice_of(&v, 4, v.len());
            assert(t@ =~= v@.skip(4));
            return string_of(&t);
        }
        if has_prefix(&v, &bang) {
            let t = slice_of(&v, 1, v.len());
            assert(t@ =~= v@.skip(1));
            return string_of(&t);
        }
        let mut out = not_;
        extend(&mut out, &v);
        return string_of(&out);
    }
    if kind_is(node, "binary_operator") {
        let ct = crate::syntax::node_text(node, source);
        match apply_de_morgan(ct.as_str()) {
            Some(r) => {
                return r;
            },
            None => {},
        }
        match flip_comparison(ct.as_str()) {
            Some(r) => {
                return r;
            },
            None => {},
        }
        let mut out: Vec<char> = Vec::new();
        extend_str(&mut out, "not (");
        extend_str(&mut out, ct.as_str());
        extend_str(&mut out, ")");
        return string_of(&out);
    }
    if kind_is(node, "parenthesized_expression") {
        if named_child_count(node) == 1 {
            match first_named_child(node) {
                Some(i) => {
                    assert(tree_ok(source@, node.children@[i as int]));
                    return negate_condition(&node.children[i], source);
                },
                None => {},
            }
        }
        let ct = crate::syntax::node_text(node, source);
        let mut out: Vec<char> = Vec::new();
        extend_str(&mut out, "not ");
        extend_str(&mut out, ct.as_str());
        return string_of(&out);
    }
    if kind_is(node, "true") {
        return String::from_str("false");
    }
    if kind_is(node, "false") {
        return String::from_str("true");
    }
    let ct = crate::syntax::node_text(node, source);
    let mut out: Vec<char> = Vec::new();
    extend_str(&mut out, "not ");
    extend_str(&mut out, ct.as_str());
    string_of(&out)
}


// ── Finding the `if` ───────────────────────────────────────────────────────

/// Pre-order search, from the node's `i`-th child on, for an `if_statement`
/// that starts on `line` (the node itself is not considered).
pub open spec fn find_if_from(n: SyntaxNode, line: usize, i: int) -> Option<SyntaxNode>
    decreases n, n.children@.len() - i,
{
    if i < 0 || i >= n.children@.len() {
        None
    } else {
        let c = n.children@[i];
        if c.kind@ == "if_statement"@ && c.start_row == line {
            Some(c)
        } else {
            match find_if_from(c, line, 0) {
                Some(f) => Some(f),
                None => find_if_from(n, line, i + 1),
            }
        }
    }
}

proof fn lemma_find_if_ok(src: Seq<char>, n: SyntaxNode, line: usize, i: int)
    requires
        tree_ok(src, n),
        find_if_from(n, line, i) is Some,
    ensures
        tree_ok(src, find_if_from(n, line, i)->0),
    decreases n, n.children@.len() - i,
{
    let c = n.children@[i];
    assert(tree_ok(src, c));
    if c.kind@ == "if_statement"@ && c.start_row == line {
    } else {
        match find_if_from(c, line, 0) {
            Some(f) => {
                lemma_find_if_ok(src, c, line, 0);
            },
            None => {
                lemma_find_if_ok(src, n, line, i + 1);
            },
        }
    }
}

/// Find an `if_statement` at the given line (0-based), searching recursively.
pub fn find_if_recursive(node: &SyntaxNode, line: usize) -> (r: Option<&SyntaxNode>)
    ensures
        match r {
            Some(c) => find_if_from(*node, line, 0) == Some(*c),
            None => find_if_from(*node, line, 0) is None,
        },
    decreases node,
{
    let mut i: usize = 0;
    while i < node.children.len()
        invariant
            i <= node.children@.len(),
            find_if_from(*node, line, 0) == find_if_from(*node, line, i as int),
        decreases node.children@.len() - i,
    {
        let c = &node.children[i];
        if kind_is(c, "if_statement") && c.start_row == line {
            return Some(c);
        }
        match find_if_recursive(c, line) {
            Some(f) => {
                return Some(f);
            },
            None => {},
        }
        i += 1;
    }
    None
}

/// Find an `if_statement` at the given line (0-based), searching recursively.
pub fn find_if_at_line(root: &SyntaxNode, line: usize) -> (r: Option<&SyntaxNode>)
    ensures
        match r {
            Some(c) => find_if_from(*root, line, 0) == Some(*c),
            None => find_if_from(*root, line, 0) is None,
        },
{
    find_if_recursive(root, line)
}

// ── Inversion ──────────────────────────────────────────────────────────────

/// Why an `if` could not be inverted.
#[derive(PartialEq, Eq, Structural, Debug)]
pub enum InvertIfError {
    NoIfStatement,
    NoCondition,
    NoIfBody,
    NoElseBranch,
    NoElseBody,
    NoElifCondition,
    NoElifBody,
}

/// The message of an invert-if error for the 1-based `line` asked for.
pub open spec fn invert_error_message(e: InvertIfError, line: usize) -> Seq<char> {
    match e {
        InvertIfError::NoIfStatement => "no if statement found at line "@ + crate::text::decimal(line as nat),
        InvertIfError::NoCondition => "cannot find condition in if statement"@,
        InvertIfError::NoIfBody => "cannot find if body"@,
        InvertIfError::NoElseBranch => "cannot invert: if statement has no else/elif branch"@,
        InvertIfError::NoElseBody => "cannot find else body"@,
        InvertIfError::NoElifCondition => "cannot find elif condition"@,
        InvertIfError::NoElifBody => "cannot find elif body"@,
    }
}

impl InvertIfError {
    /// The message shown to the user, for the 1-based `line` asked for.
    pub fn message(&self, line: usize) -> (r: String)
        ensures
            r@ == invert_error_message(*self, line),
    {
        match self {
            InvertIfError::NoIfStatement => {
                let d = crate::text::decimal_string(line);
                proof {
                    reveal_with_fuel(crate::text::concat_views, 3);
                }
                crate::text::concat_strs(&["no if statement found at line ", d.as_str()])
            },
            InvertIfError::NoCondition => String::from_str("cannot find condition in if statement"),
            InvertIfError::NoIfBody => String::from_str("cannot find if body"),
            InvertIfError::NoElseBranch => String::from_str("cannot invert: if statement has no else/elif branch"),
            InvertIfError::NoElseBody => String::from_str("cannot find else body"),
            InvertIfError::NoElifCondition => String::from_str("cannot find elif condition"),
            InvertIfError::NoElifBody => String::from_str("cannot find elif body"),
        }
    }
}

/// The output of invert-if.
pub struct InvertIfOutput {
    pub file: String,
    pub line: u32,
    pub original_condition: String,
    pub inverted_condition: String,
    pub applied: bool,
}

/// What invert-if computes: both conditions and, unless it is a dry run, the new source.
pub struct InvertIfPlan {
    pub original_condition: String,
    pub inverted_condition: String,
    pub new_source: Option<String>,
}

/// The children of kind `k`, in order.
pub open spec fn kind_children(cs: Seq<SyntaxNode>, k: Seq<char>) -> Seq<SyntaxNode>
    decreases cs.len(),
{
    if cs.len() == 0 {
        Seq::empty()
    } else if cs.last().kind@ == k {
        kind_children(cs.drop_last(), k).push(cs.last())
    } else {
        kind_children(cs.drop_last(), k)
    }
}

proof fn lemma_kind_children_in(cs: Seq<SyntaxNode>, k: Seq<char>)
    ensures
        forall|j: int|
            0 <= j < kind_children(cs, k).len() ==> exists|i: int|
                0 <= i < cs.len() && cs[i] == #[trigger] kind_children(cs, k)[j],
    decreases cs.len(),
{
    if cs.len() > 0 {
        lemma_kind_children_in(cs.drop_last(), k);
        let p = kind_children(cs.drop_last(), k);
        assert forall|j: int| 0 <= j < kind_children(cs, k).len() implies exists|i: int|
            0 <= i < cs.len() && cs[i] == #[trigger] kind_children(cs, k)[j] by {
            if j < p.len() {
                let i = choose|i: int| 0 <= i < cs.drop_last().len() && cs.drop_last()[i] == p[j];
                assert(cs[i] == p[j]);
            } else {
                assert(cs[cs.len() - 1] == kind_children(cs, k)[j]);
            }
        }
    }
}

fn children_of_kind<'a>(node: &'a SyntaxNode, k: &str) -> (r: Vec<&'a SyntaxNode>)
    ensures
        r@.map_values(|e: &SyntaxNode| *e) == kind_children(node.children@, k@),
{
    let ghost cs = node.children@;
    let mut r: Vec<&'a SyntaxNode> = Vec::new();
    let mut i: usize = 0;
    while i < node.children.len()
        invariant
            i <= cs.len(),
            cs == node.children@,
            r@.map_values(|e: &SyntaxNode| *e) == kind_children(cs.take(i as int), k@),
        decreases cs.len() - i,
    {
        assert(cs.take(i + 1).drop_last() =~= cs.take(i as int));
        let ghost before = r@;
        if kind_is(&node.children[i], k) {
            r.push(&node.children[i]);
            assert(r@.map_values(|e: &SyntaxNode| *e) =~= before.map_values(|e: &SyntaxNode| *e).push(cs[i as int]));
        }
        i += 1;
    }
    assert(cs.take(i as int) =~= cs);
    r
}

/// The text of the `elif` clauses after the first, each on its own line.
pub open spec fn rest_elifs(es: Seq<SyntaxNode>, src: Seq<char>, indent: Seq<char>) -> Result<Seq<char>, InvertIfError>
    decreases es.len(),
{
    if es.len() == 0 {
        Ok(Seq::empty())
    } else {
        match rest_elifs(es.drop_last(), src, indent) {
            Err(e) => Err(e),
            Ok(t) => match elif_condition(es.last(), src) {
                None => Err(InvertIfError::NoElifCondition),
                Some(cond) => match clause_body(es.last(), src) {
                    None => Err(InvertIfError::NoElifBody),
                    Some(body) => Ok(t + "\n"@ + indent + "elif "@ + cond + ":\n"@ + body),
                },
            },
        }
    }
}

/// The if/else swap: negated condition, then the else body, then the if body.
pub open spec fn simple_inversion(src: Seq<char>, if_node: SyntaxNode, cond: SyntaxNode, if_body: SyntaxNode, else_clause: SyntaxNode) -> Result<Seq<char>, InvertIfError> {
    let indent = indent_of(nth_line(src, if_node.start_row as int));
    match clause_body(else_clause, src) {
        None => Err(InvertIfError::NoElseBody),
        Some(else_body) => Ok(spliced(
            src,
            if_node,
            indent + "if "@ + negation(cond, src) + ":\n"@ + else_body + "\n"@ + indent + "else:\n"@ + body_text(if_body, src),
        )),
    }
}

/// The elif rotation: the first elif becomes the `if`, the others stay, the
/// original `if` becomes the last `elif`, and the `else` stays last.
pub open spec fn elif_inversion(src: Seq<char>, if_node: SyntaxNode, cond: SyntaxNode, if_body: SyntaxNode, elifs: Seq<SyntaxNode>, else_clause: Option<SyntaxNode>) -> Result<Seq<char>, InvertIfError> {
    let indent = indent_of(nth_line(src, if_node.start_row as int));
    let first = elifs[0];
    match elif_condition(first, src) {
        None => Err(InvertIfError::NoElifCondition),
        Some(c1) => match clause_body(first, src) {
            None => Err(InvertIfError::NoElifBody),
            Some(b1) => match rest_elifs(elifs.skip(1), src, indent) {
                Err(e) => Err(e),
                Ok(rest) => {
                    let head = indent + "if "@ + c1 + ":\n"@ + b1 + rest + "\n"@ + indent + "elif "@ + text_of(src, cond) + ":\n"@ + body_text(if_body, src);
                    match else_clause {
                        None => Ok(spliced(src, if_node, head)),
                        Some(e) => match clause_body(e, src) {
                            None => Err(InvertIfError::NoElseBody),
                            Some(eb) => Ok(spliced(src, if_node, head + "\n"@ + indent + "else:\n"@ + eb)),
                        },
                    }
                },
            },
        },
    }
}

/// The `if` that invert-if works on (`line` is 1-based).
pub open spec fn target_if(root: SyntaxNode, line: usize) -> Option<SyntaxNode> {
    find_if_from(root, (line - 1) as usize, 0)
}


/// What invert-if computes: (original condition, inverted condition, new source unless dry run).
pub open spec fn invert_if_result(src: Seq<char>, root: SyntaxNode, line: usize, dry_run: bool) -> Result<(Seq<char>, Seq<char>, Option<Seq<char>>), InvertIfError> {
    match target_if(root, line) {
        None => Err(InvertIfError::NoIfStatement),
        Some(n) => match condition_index(n) {
            None => Err(InvertIfError::NoCondition),
            Some(ci) => {
                let cond = n.children@[ci];
                match kind_child(n, "body"@) {
                    None => Err(InvertIfError::NoIfBody),
                    Some(bi) => {
                        let elifs = kind_children(n.children@, "elif_clause"@);
                        let else_i = kind_child(n, "else_clause"@);
                        if elifs.len() == 0 && else_i is None {
                            Err(InvertIfError::NoElseBranch)
                        } else if dry_run {
                            Ok((text_of(src, cond), negation(cond, src), None))
                        } else {
                            let built = if elifs.len() == 0 {
                                simple_inversion(src, n, cond, n.children@[bi], n.children@[else_i->0])
                            } else {
                                elif_inversion(
                                    src,
                                    n,
                                    cond,
                                    n.children@[bi],
                                    elifs,
                                    match else_i {
                                        Some(k) => Some(n.children@[k]),
                                        None => None,
                                    },
                                )
                            };
                            match built {
                                Err(e) => Err(e),
                                Ok(ns) => Ok((text_of(src, cond), negation(cond, src), Some(ns))),
                            }
                        }
                    },
                }
            },
        },
    }
}

/// Simple if/else swap: negate condition, swap bodies.
fn build_simple_inversion(source: &str, if_node: &SyntaxNode, condition_node: &SyntaxNode, if_body: &SyntaxNode, else_clause: &SyntaxNode) -> (r: Result<String, InvertIfError>)
    requires
        tree_ok(source@, *if_node),
        tree_ok(source@, *condition_node),
        tree_ok(source@, *if_body),
        tree_ok(source@, *else_clause),
    ensures
        match r {
            Ok(s) => simple_inversion(source@, *if_node, *condition_node, *if_body, *else_clause) == Ok::<Seq<char>, InvertIfError>(s@),
            Err(e) => simple_inversion(source@, *if_node, *condition_node, *if_body, *else_clause) == Err::<Seq<char>, InvertIfError>(e),
        },
{
    let inverted = negate_condition(condition_node, source);
    let if_body_text = body_lines(if_body, source);
    let else_body_text = match get_clause_body_lines(else_clause, source) {
        Some(t) => t,
        None => {
            return Err(InvertIfError::NoElseBody);
        },
    };
    let indent = get_line_indent(source, if_node.start_row);
    let mut rebuilt = String::new();
    crate::text::push_str(&mut rebuilt, indent.as_str());
    crate::text::push_str(&mut rebuilt, "if ");
    crate::text::push_str(&mut rebuilt, inverted.as_str());
    crate::text::push_str(&mut rebuilt, ":\n");
    crate::text::push_str(&mut rebuilt, else_body_text.as_str());
    crate::text::push_str(&mut rebuilt, "\n");
    crate::text::push_str(&mut rebuilt, indent.as_str());
    crate::text::push_str(&mut rebuilt, "else:\n");
    crate::text::push_str(&mut rebuilt, if_body_text.as_str());
    Ok(splice(source, if_node, rebuilt.as_str()))
}

proof fn lemma_rest_elifs_err(es: Seq<SyntaxNode>, k: int, src: Seq<char>, indent: Seq<char>)
    requires
        0 <= k <= es.len(),
        rest_elifs(es.take(k), src, indent) is Err,
    ensures
        rest_elifs(es, src, indent) == rest_elifs(es.take(k), src, indent),
    decreases es.len() - k,
{
    if k < es.len() {
        assert(es.take(k + 1).drop_last() =~= es.take(k));
        lemma_rest_elifs_err(es, k + 1, src, indent);
    } else {
        assert(es.take(k) =~= es);
    }
}

/// The `elif` clauses after the first, re-emitted in order.
fn rest_elif_text(source: &str, elif_clauses: &Vec<&SyntaxNode>, indent: &str) -> (r: Result<String, InvertIfError>)
    requires
        elif_clauses@.len() > 0,
        forall|j: int| 0 <= j < elif_clauses@.len() ==> tree_ok(source@, *#[trigger] elif_clauses@[j]),
    ensures
        match r {
            Ok(s) => rest_elifs(elif_clauses@.skip(1).map_values(|e: &SyntaxNode| *e), source@, indent@) == Ok::<Seq<char>, InvertIfError>(s@),
            Err(e) => rest_elifs(elif_clauses@.skip(1).map_values(|e: &SyntaxNode| *e), source@, indent@) == Err::<Seq<char>, InvertIfError>(e),
        },
{
    let ghost rest = elif_clauses@.skip(1).map_values(|e: &SyntaxNode| *e);
    let mut out = String::new();
    let mut i: usize = 1;
    while i < elif_clauses.len()
        invariant
            1 <= i <= elif_clauses@.len(),
            rest == elif_clauses@.skip(1).map_values(|e: &SyntaxNode| *e),
            forall|j: int| 0 <= j < elif_clauses@.len() ==> tree_ok(source@, *#[trigger] elif_clauses@[j]),
            rest_elifs(rest.take(i - 1), source@, indent@) == Ok::<Seq<char>, InvertIfError>(out@),
        decreases elif_clauses@.len() - i,
    {
        let elif = elif_clauses[i];
        assert(tree_ok(source@, *elif));
        assert(rest.take(i as int).drop_last() =~= rest.take(i - 1));
        assert(rest.take(i as int).last() == *elif);
        let cond = match get_elif_condition(elif, source) {
            Some(c) => c,
            None => {
                proof {
                    lemma_rest_elifs_err(rest, i as int, source@, indent@);
                }
                return Err(InvertIfError::NoElifCondition);
            },
        };
        let body_text = match get_clause_body_lines(elif, source) {
            Some(b) => b,
            None => {
                proof {
                    lemma_rest_elifs_err(rest, i as int, source@, indent@);
                }
                return Err(InvertIfError::NoElifBody);
            },
        };
        crate::text::push_str(&mut out, "\n");
        crate::text::push_str(&mut out, indent);
        crate::text::push_str(&mut out, "elif ");
        crate::text::push_str(&mut out, cond.as_str());
        crate::text::push_str(&mut out, ":\n");
        crate::text::push_str(&mut out, body_text.as_str());
        i += 1;
    }
    assert(rest.take(i - 1) =~= rest);
    Ok(out)
}

/// Elif rotation: first elif → new if, original if → last elif.
fn build_elif_inversion(source: &str, if_node: &SyntaxNode, condition_node: &SyntaxNode, if_body: &SyntaxNode, elif_clauses: &Vec<&SyntaxNode>, else_clause: Option<&SyntaxNode>) -> (r: Result<String, InvertIfError>)
    requires
        tree_ok(source@, *if_node),
        tree_ok(source@, *condition_node),
        tree_ok(source@, *if_body),
        elif_clauses@.len() > 0,
        forall|j: int| 0 <= j < elif_clauses@.len() ==> tree_ok(source@, *#[trigger] elif_clauses@[j]),
        match else_clause {
            Some(e) => tree_ok(source@, *e),
            None => true,
        },
    ensures
        match r {
            Ok(s) => elif_inversion(source@, *if_node, *condition_node, *if_body, elif_clauses@.map_values(|e: &SyntaxNode| *e), match else_clause { Some(e) => Some(*e), None => None }) == Ok::<Seq<char>, InvertIfError>(s@),
            Err(e) => elif_inversion(source@, *if_node, *condition_node, *if_body, elif_clauses@.map_values(|e: &SyntaxNode| *e), match else_clause { Some(e) => Some(*e), None => None }) == Err::<Seq<char>, InvertIfError>(e),
        },
{
    let ghost es = elif_clauses@.map_values(|e: &SyntaxNode| *e);
    let indent = get_line_indent(source, if_node.start_row);
    let original_condition = crate::syntax::node_text(condition_node, source);
    let if_body_text = body_lines(if_body, source);
    let first_elif = elif_clauses[0];
    let first_elif_cond = match get_elif_condition(first_elif, source) {
        Some(c) => c,
        None => {
            return Err(InvertIfError::NoElifCondition);
        },
    };
    let first_elif_body = match get_clause_body_lines(first_elif, source) {
        Some(b) => b,
        None => {
            return Err(InvertIfError::NoElifBody);
        },
    };
    let mut rebuilt = String::new();
    crate::text::push_str(&mut rebuilt, indent.as_str());
    crate::text::push_str(&mut rebuilt, "if ");
    crate::text::push_str(&mut rebuilt, first_elif_cond.as_str());
    crate::text::push_str(&mut rebuilt, ":\n");
    crate::text::push_str(&mut rebuilt, first_elif_body.as_str());
    assert(elif_clauses@.skip(1).map_values(|e: &SyntaxNode| *e) =~= es.skip(1));
    let rest_text = match rest_elif_text(source, elif_clauses, indent.as_str()) {
        Ok(t) => t,
        Err(e) => {
            return Err(e);
        },
    };
    assert(elif_clauses@.skip(1).map_values(|e: &SyntaxNode| *e) =~= es.skip(1));
    crate::text::push_str(&mut rebuilt, rest_text.as_str());
    crate::text::push_str(&mut rebuilt, "\n");
    crate::text::push_str(&mut rebuilt, indent.as_str());
    crate::text::push_str(&mut rebuilt, "elif ");
    crate::text::push_str(&mut rebuilt, original_condition.as_str());
    crate::text::push_str(&mut rebuilt, ":\n");
    crate::text::push_str(&mut rebuilt, if_body_text.as_str());
    match else_clause {
        Some(else_node) => {
            let body_text = match get_clause_body_lines(else_node, source) {
                Some(b) => b,
                None => {
                    return Err(InvertIfError::NoElseBody);
                },
            };
            crate::text::push_str(&mut rebuilt, "\n");
            crate::text::push_str(&mut rebuilt, indent.as_str());
            crate::text::push_str(&mut rebuilt, "else:\n");
            crate::text::push_str(&mut rebuilt, body_text.as_str());
        },
        None => {},
    }
    Ok(splice(source, if_node, rebuilt.as_str()))
}

#[verifier::rlimit(80)]
/// Invert the if/else at the given line (1-based): negate the condition and
/// swap the if-body with the else-body. For elif chains, rotate: the first
/// elif becomes the new `if`, and the original `if` becomes the last `elif`.
pub fn invert_if_source(source: &str, root: &SyntaxNode, line: usize, dry_run: bool) -> (r: Result<InvertIfPlan, InvertIfError>)
    requires
        line >= 1,
        tree_ok(source@, *root),
    ensures
        match r {
            Ok(p) => invert_if_result(source@, *root, line, dry_run) == Ok::<(Seq<char>, Seq<char>, Option<Seq<char>>), InvertIfError>((p.original_condition@, p.inverted_condition@, match p.new_source { Some(s) => Some(s@), None => None })),
            Err(e) => invert_if_result(source@, *root, line, dry_run) == Err::<(Seq<char>, Seq<char>, Option<Seq<char>>), InvertIfError>(e),
        },
{
    let line_0 = line - 1;
    let if_node = match find_if_at_line(root, line_0) {
        Some(n) => n,
        None => {
            return Err(InvertIfError::NoIfStatement);
        },
    };
    proof {
        lemma_find_if_ok(source@, *root, line_0, 0);
    }
    let ci = match condition_child(if_node) {
        Some(i) => i,
        None => {
            return Err(InvertIfError::NoCondition);
        },
    };
    let condition_node = &if_node.children[ci];
    assert(tree_ok(source@, *condition_node));
    let condition_text = crate::syntax::node_text(condition_node, source);
    let bi = match first_child_of_kind(if_node, "body") {
        Some(i) => i,
        None => {
            return Err(InvertIfError::NoIfBody);
        },
    };
    let if_body = &if_node.children[bi];
    assert(tree_ok(source@, *if_body));
    let elif_clauses = children_of_kind(if_node, "elif_clause");
    let else_i = first_child_of_kind(if_node, "else_clause");
    if elif_clauses.len() == 0 && else_i.is_none() {
        return Err(InvertIfError::NoElseBranch);
    }
    let inverted_condition = negate_condition(condition_node, source);
    if dry_run {
        return Ok(InvertIfPlan { original_condition: condition_text, inverted_condition, new_source: None });
    }
    let else_clause: Option<&SyntaxNode> = match else_i {
        Some(k) => Some(&if_node.children[k]),
        None => None,
    };
    proof {
        match else_i {
            Some(k) => {
                assert(tree_ok(source@, if_node.children@[k as int]));
            },
            None => {},
        }
    }
    let built = if elif_clauses.len() == 0 {
        match else_clause {
            Some(e) => build_simple_inversion(source, if_node, condition_node, if_body, e),
            None => {
                return Err(InvertIfError::NoElseBranch);
            },
        }
    } else {
        proof {
            lemma_kind_children_in(if_node.children@, "elif_clause"@);
            assert forall|j: int| 0 <= j < elif_clauses@.len() implies tree_ok(source@, *#[trigger] elif_clauses@[j]) by {
                assert(*elif_clauses@[j] == kind_children(if_node.children@, "elif_clause"@)[j]);
                let k = choose|k: int| 0 <= k < if_node.children@.len() && if_node.children@[k] == kind_children(if_node.children@, "elif_clause"@)[j];
                assert(tree_ok(source@, if_node.children@[k]));
            }
        }
        build_elif_inversion(source, if_node, condition_node, if_body, &elif_clauses, else_clause)
    };
    match built {
        Ok(ns) => Ok(InvertIfPlan { original_condition: condition_text, inverted_condition, new_source: Some(ns) }),
        Err(e) => Err(e),
    }
}

// ── Checking the preconditions ─────────────────────────────────────────────

/// Whether the scan for a top-level `and`/`or` in the text can run: it only
/// slices on character boundaries, and its depth counter stays in range.
pub fn can_scan_bool_op(text: &str) -> (r: bool)
    ensures
        r == bool_op_ok(text),
{
    let bytes = text.as_bytes();
    let ghost b = bytes@;
    if bytes.len() >= 0x8000_0000 {
        return false;
    }
    let and_: [u8; 5] = [32u8, 97u8, 110u8, 100u8, 32u8];
    let or_: [u8; 4] = [32u8, 111u8, 114u8, 32u8];
    assert(and_@ =~= and_bytes());
    assert(or_@ =~= or_bytes());
    let mut d: i64 = 0;
    let mut i: usize = 0;
    while i < bytes.len()
        invariant
            i <= b.len(),
            b == bytes@,
            b == text.spec_bytes(),
            b.len() < 0x8000_0000,
            and_@ == and_bytes(),
            or_@ == or_bytes(),
            -(i as int) <= d <= i,
            scan_ok(b, 0, 0) == scan_ok(b, i as int, d as int),
        decreases b.len() - i,
    {
        let step: i64 = if bytes[i] == 40u8 {
            1
        } else if bytes[i] == 41u8 {
            -1
        } else {
            0
        };
        let d2 = d + step;
        if d2 == 0 && !text.is_char_boundary(i) {
            return false;
        }
        if d2 == 0 && (bytes_match(bytes, i, &and_) || bytes_match(bytes, i, &or_)) {
            return true;
        }
        d = d2;
        i += 1;
    }
    true
}

/// Invert the `if` on a 1-based line of a source text, parsing it first:
/// `None` when the parser gives no tree that fits the text.
pub fn invert_if_in(source: &str, line: usize, dry_run: bool) -> (r: Option<Result<InvertIfPlan, InvertIfError>>)
    requires
        line >= 1,
    ensures
        r is None <==> fitting_tree(source@) is None,
        r matches Some(x) ==> match x {
            Ok(p) => invert_if_result(source@, fitting_tree(source@)->0, line, dry_run) == Ok::<
                (Seq<char>, Seq<char>, Option<Seq<char>>),
                InvertIfError,
            >((p.original_condition@, p.inverted_condition@, match p.new_source {
                Some(s) => Some(s@),
                None => None,
            })),
            Err(e) => invert_if_result(source@, fitting_tree(source@)->0, line, dry_run) == Err::<
                (Seq<char>, Seq<char>, Option<Seq<char>>),
                InvertIfError,
            >(e),
        },
{
    match parse_fitting(source) {
        Some(root) => Some(invert_if_source(source, &root, line, dry_run)),
        None => None,
    }
}

} // verus!
