//! Introduce-variable: name an expression with a new local variable or
//! constant declared before the statement that uses it.
use vstd::prelude::*;
use vstd::string::StringSliceAdditionalSpecFns;
use vstd::utf8::encode_utf8;

use crate::edits::{applied, edit_views, edits_desc, edits_valid, sort_edits_desc};
use crate::refactor::collision::{CollisionKind, kind_text};
use crate::refactor::introduce_parameter::{is_function_node, param_expr_kind, is_param_expression_kind};
use crate::refactor::inline_method::string_texts;
use crate::refactor::{nl_starts, str_eq};
use crate::syntax::{
    SyntaxNode, child, field_child, first_where, kind_is, lemma_first_where, lemma_first_where_none, node_text,
    span_ok, span_replaced, text_of, tree_ok,
};
use crate::text::{chars_of, concat_strs, concat_views, decimal, decimal_string};

verus! {

/// What an introduce-variable run reports.
pub struct IntroduceVariableOutput {
    pub variable: String,
    pub expression: String,
    pub is_const: bool,
    pub file: String,
    pub applied: bool,
    pub replacements: u32,
    pub inferred_type: Option<String>,
    pub warnings: Vec<String>,
}

// ── Locating the expression ────────────────────────────────────────────────

/// The node kinds accepted as the expression to name (lambdas too).
pub open spec fn var_expr_kind(k: Seq<char>) -> bool {
    param_expr_kind(k) || k == "lambda"@
}

/// The first expression among the nodes that hold the selection, innermost first.
pub open spec fn var_expression_index(chain: Seq<SyntaxNode>) -> Option<int> {
    first_where(chain, |n: SyntaxNode| var_expr_kind(n.kind@))
}

/// Find the expression at the selection, given the nodes that contain the
/// selection from the innermost outwards.
pub fn find_expression_at(chain: &[SyntaxNode]) -> (r: Option<usize>)
    ensures
        match r {
            Some(i) => i < chain@.len() && var_expression_index(chain@) == Some(i as int),
            None => var_expression_index(chain@) is None,
        },
{
    let ghost p = |n: SyntaxNode| var_expr_kind(n.kind@);
    let mut i: usize = 0;
    while i < chain.len()
        invariant
            i <= chain@.len(),
            p == (|n: SyntaxNode| var_expr_kind(n.kind@)),
            forall|j: int| 0 <= j < i ==> !p(#[trigger] chain@[j]),
        decreases chain@.len() - i,
    {
        if is_param_expression_kind(chain[i].kind.as_str()) || kind_is(&chain[i], "lambda") {
            proof {
                lemma_first_where(chain@, p, i as int);
            }
            return Some(i);
        }
        i += 1;
    }
    proof {
        lemma_first_where_none(chain@, p);
    }
    None
}

/// The statement kinds a new declaration goes before.
pub open spec fn stmt_kind(k: Seq<char>) -> bool {
    ||| k == "expression_statement"@
    ||| k == "variable_statement"@
    ||| k == "assignment"@
    ||| k == "augmented_assignment"@
    ||| k == "return_statement"@
    ||| k == "if_statement"@
    ||| k == "for_statement"@
    ||| k == "while_statement"@
    ||| k == "match_statement"@
}

/// Walking outwards from `chain[i]`: the first statement, unless a body or
/// the file's root comes first.
pub open spec fn containing_stmt(chain: Seq<SyntaxNode>, i: int) -> Option<int>
    decreases chain.len() - i,
{
    if i < 0 || i >= chain.len() {
        None
    } else if stmt_kind(chain[i].kind@) {
        Some(i)
    } else if chain[i].kind@ == "body"@ || chain[i].kind@ == "source"@ {
        None
    } else {
        containing_stmt(chain, i + 1)
    }
}

fn is_statement_kind(k: &str) -> (r: bool)
    ensures
        r == stmt_kind(k@),
{
    str_eq(k, "expression_statement") || str_eq(k, "variable_statement") || str_eq(k, "assignment") || str_eq(
        k,
        "augmented_assignment",
    ) || str_eq(k, "return_statement") || str_eq(k, "if_statement") || str_eq(k, "for_statement") || str_eq(
        k,
        "while_statement",
    ) || str_eq(k, "match_statement")
}

/// Walk outwards from `chain[from]` (a node and its ancestors, innermost
/// first) to the nearest statement.
pub fn find_containing_statement(chain: &[SyntaxNode], from: usize) -> (r: Option<usize>)
    ensures
        match r {
            Some(i) => i < chain@.len() && containing_stmt(chain@, from as int) == Some(i as int),
            None => containing_stmt(chain@, from as int) is None,
        },
{
    let mut i: usize = from;
    while i < chain.len()
        invariant
            from <= i,
            containing_stmt(chain@, from as int) == containing_stmt(chain@, i as int),
        decreases chain@.len() - i,
    {
        let k = chain[i].kind.as_str();
        if is_statement_kind(k) {
            return Some(i);
        }
        if str_eq(k, "body") || str_eq(k, "source") {
            return None;
        }
        i += 1;
    }
    None
}

/// Whether a name is `UPPER_SNAKE_CASE`: not empty, only upper-case ASCII
/// letters, digits and underscores, starting with a letter.
pub open spec fn upper_snake(s: Seq<char>) -> bool {
    &&& s.len() > 0
    &&& forall|i: int| 0 <= i < s.len() ==> ('A' <= #[trigger] s[i] <= 'Z' || '0' <= s[i] <= '9' || s[i] == '_')
    &&& 'A' <= s[0] <= 'Z'
}

/// Check that `name` is `UPPER_SNAKE_CASE` (e.g. `MAX_SPEED`, `PI`).
pub fn is_upper_snake_case(name: &str) -> (r: bool)
    ensures
        r == upper_snake(name@),
{
    let cs = chars_of(name);
    if cs.len() == 0 {
        return false;
    }
    let mut i: usize = 0;
    while i < cs.len()
        invariant
            i <= cs@.len(),
            cs@ == name@,
            forall|j: int| 0 <= j < i ==> ('A' <= #[trigger] cs@[j] <= 'Z' || '0' <= cs@[j] <= '9' || cs@[j] == '_'),
        decreases cs@.len() - i,
    {
        let c = cs[i];
        if !(('A' <= c && c <= 'Z') || ('0' <= c && c <= '9') || c == '_') {
            return false;
        }
        i += 1;
    }
    'A' <= cs[0] && cs[0] <= 'Z'
}

// ── Other occurrences ──────────────────────────────────────────────────────

/// The byte ranges of the nodes under `n` with the given kind and text, in
/// pre-order, not looking inside nested functions or inside a match.
pub open spec fn matching_under(n: SyntaxNode, kind: Seq<char>, text: Seq<char>, src: Seq<char>) -> Seq<(usize, usize)>
    decreases n, n.children@.len() + 1,
{
    matching_first(n, kind, text, src, n.children@.len() as int)
}

/// The matches under the first `k` children of `n`.
pub open spec fn matching_first(n: SyntaxNode, kind: Seq<char>, text: Seq<char>, src: Seq<char>, k: int) -> Seq<(usize, usize)>
    decreases n, k,
{
    if k <= 0 || k > n.children@.len() {
        Seq::empty()
    } else {
        let c = n.children@[k - 1];
        matching_first(n, kind, text, src, k - 1) + if is_function_node(c) {
            Seq::empty()
        } else if c.kind@ == kind && text_of(src, c) == text {
            seq![(c.start_byte, c.end_byte)]
        } else {
            matching_under(c, kind, text, src)
        }
    }
}

/// Collect all expression nodes in `scope` that match the given kind and
/// text. Does not look inside nested function definitions.
pub fn collect_matching_expressions(
    scope: &SyntaxNode,
    kind: &str,
    text: &str,
    source: &str,
    out: &mut Vec<(usize, usize)>,
)
    requires
        tree_ok(source@, *scope),
    ensures
        final(out)@ == old(out)@ + matching_under(*scope, kind@, text@, source@),
    decreases scope,
{
    let ghost start = out@;
    let mut i: usize = 0;
    assert(out@ =~= start + matching_first(*scope, kind@, text@, source@, 0));
    while i < scope.children.len()
        invariant
            i <= scope.children@.len(),
            tree_ok(source@, *scope),
            out@ == start + matching_first(*scope, kind@, text@, source@, i as int),
        decreases scope.children@.len() - i,
    {
        let c = &scope.children[i];
        assert(tree_ok(source@, *c));
        let ghost before = out@;
        if kind_is(c, "function_definition") || kind_is(c, "constructor_definition") {
            assert(out@ =~= before + Seq::<(usize, usize)>::empty());
        } else if kind_is(c, kind) && str_eq(node_text(c, source).as_str(), text) {
            out.push((c.start_byte, c.end_byte));
        } else {
            collect_matching_expressions(c, kind, text, source, out);
        }
        assert(out@ =~= start + matching_first(*scope, kind@, text@, source@, i + 1));
        i += 1;
    }
}

/// Where occurrences are looked for: the body of the function enclosing the
/// selection (from the nodes holding it, innermost first), else the file.
pub open spec fn search_scope(chain: Seq<SyntaxNode>, root: SyntaxNode) -> SyntaxNode {
    match first_where(chain, |n: SyntaxNode| is_function_node(n)) {
        Some(i) => match field_child(chain[i], "body"@) {
            Some(b) => b,
            None => root,
        },
        None => root,
    }
}

/// The node to search for other occurrences.
pub fn replace_all_scope<'a>(chain: &'a [SyntaxNode], root: &'a SyntaxNode) -> (r: &'a SyntaxNode)
    ensures
        *r == search_scope(chain@, *root),
{
    match crate::refactor::introduce_parameter::enclosing_function(chain) {
        Some(i) => match crate::syntax::child_by_field_name(&chain[i], "body") {
            Some(b) => b,
            None => root,
        },
        None => root,
    }
}

/// Whether the node spanning `s..e` under `parent` is written to: the left
/// side of an assignment, or the name of a `var` or `const`.
pub open spec fn assignment_target(parent: SyntaxNode, s: usize, e: usize) -> bool {
    if parent.kind@ == "assignment"@ || parent.kind@ == "augmented_assignment"@ {
        match field_child(parent, "left"@) {
            Some(l) => l.start_byte == s && l.end_byte == e,
            None => match child(parent, 0) {
                Some(f) => f.start_byte == s && f.end_byte == e,
                None => false,
            },
        }
    } else if parent.kind@ == "variable_statement"@ || parent.kind@ == "const_statement"@ {
        match field_child(parent, "name"@) {
            Some(m) => m.start_byte == s && m.end_byte == e,
            None => false,
        }
    } else {
        false
    }
}

/// Check whether a node (spanning `start..end`, under `parent`) is an
/// assignment target; a node without a parent is not.
pub fn is_assignment_target(parent: Option<&SyntaxNode>, start: usize, end: usize) -> (r: bool)
    ensures
        r == match parent {
            Some(p) => assignment_target(*p, start, end),
            None => false,
        },
{
    let p = match parent {
        Some(p) => p,
        None => return false,
    };
    if kind_is(p, "assignment") || kind_is(p, "augmented_assignment") {
        match crate::syntax::child_by_field_name(p, "left") {
            Some(l) => return l.start_byte == start && l.end_byte == end,
            None => {},
        }
        if p.children.len() > 0 {
            return p.children[0].start_byte == start && p.children[0].end_byte == end;
        }
        return false;
    }
    if kind_is(p, "variable_statement") || kind_is(p, "const_statement") {
        return match crate::syntax::child_by_field_name(p, "name") {
            Some(m) => m.start_byte == start && m.end_byte == end,
            None => false,
        };
    }
    false
}

// ── The replacements ──────────────────────────────────────────────────────

/// Another occurrence of the expression, with what the tree says of it: the
/// occurrence is written to, and the row of the statement that holds it.
pub struct MatchSite {
    pub start: usize,
    pub end: usize,
    pub assignment_target: bool,
    pub statement_row: Option<usize>,
}

/// An occurrence that is replaced too: not the selected one, not written to.
pub open spec fn kept(m: MatchSite, es: usize, ee: usize) -> bool {
    !(m.start == es && m.end == ee) && !m.assignment_target
}

/// The spans of the occurrences that are replaced too, in order.
pub open spec fn kept_spans(ms: Seq<MatchSite>, es: usize, ee: usize) -> Seq<(usize, usize)>
    decreases ms.len(),
{
    if ms.len() == 0 {
        Seq::empty()
    } else {
        kept_spans(ms.drop_last(), es, ee) + if kept(ms.last(), es, ee) {
            seq![(ms.last().start, ms.last().end)]
        } else {
            Seq::empty()
        }
    }
}

/// The earliest statement row among `init` and the kept occurrences' statements.
pub open spec fn earliest_row(ms: Seq<MatchSite>, es: usize, ee: usize, init: usize) -> usize
    decreases ms.len(),
{
    if ms.len() == 0 {
        init
    } else {
        let r = earliest_row(ms.drop_last(), es, ee, init);
        let m = ms.last();
        if kept(m, es, ee) && m.statement_row is Some && m.statement_row.unwrap() < r {
            m.statement_row.unwrap()
        } else {
            r
        }
    }
}

/// `x` placed into `t` before the first span that starts after it.
pub open spec fn insert_asc(t: Seq<(usize, usize)>, x: (usize, usize)) -> Seq<(usize, usize)>
    decreases t.len(),
{
    if t.len() == 0 {
        seq![x]
    } else if t[0].0 <= x.0 {
        seq![t[0]] + insert_asc(t.drop_first(), x)
    } else {
        seq![x] + t
    }
}

/// The spans ordered by start; spans with one start keep their order.
pub open spec fn sorted_asc(s: Seq<(usize, usize)>) -> Seq<(usize, usize)>
    decreases s.len(),
{
    if s.len() == 0 {
        Seq::empty()
    } else {
        insert_asc(sorted_asc(s.drop_last()), s.last())
    }
}

/// The sequence with each run of equal neighbours kept once.
pub open spec fn dedup(s: Seq<(usize, usize)>) -> Seq<(usize, usize)>
    decreases s.len(),
{
    if s.len() == 0 {
        Seq::empty()
    } else {
        let d = dedup(s.drop_last());
        if d.len() > 0 && d.last() == s.last() {
            d
        } else {
            d.push(s.last())
        }
    }
}

/// The byte ranges to replace and the row before which the declaration
/// goes: the selection alone; or, replacing all, every kept occurrence too,
/// ordered by start without repeats, and the earliest of their statements.
pub open spec fn replacements_for(replace_all: bool, es: usize, ee: usize, init: usize, ms: Seq<MatchSite>) -> (Seq<(usize, usize)>, usize) {
    if !replace_all {
        (seq![(es, ee)], init)
    } else {
        (dedup(sorted_asc(seq![(es, ee)] + kept_spans(ms, es, ee))), earliest_row(ms, es, ee, init))
    }
}

proof fn lemma_insert_asc_at(t: Seq<(usize, usize)>, x: (usize, usize), p: int)
    requires
        0 <= p <= t.len(),
        forall|j: int| 0 <= j < p ==> t[j].0 <= x.0,
        p < t.len() ==> t[p].0 > x.0,
    ensures
        insert_asc(t, x) == t.take(p) + seq![x] + t.skip(p),
    decreases t.len(),
{
    if t.len() == 0 {
        assert(t.take(p) + seq![x] + t.skip(p) =~= seq![x]);
    } else if p == 0 {
        assert(t.take(p) + seq![x] + t.skip(p) =~= seq![x] + t);
    } else {
        let r = t.drop_first();
        assert forall|j: int| 0 <= j < p - 1 implies r[j].0 <= x.0 by {
            assert(r[j] == t[j + 1]);
        }
        if p - 1 < r.len() {
            assert(r[p - 1] == t[p]);
        }
        lemma_insert_asc_at(r, x, p - 1);
        assert(t.take(p) + seq![x] + t.skip(p) =~= seq![t[0]] + (r.take(p - 1) + seq![x] + r.skip(p - 1)));
    }
}

fn sort_spans_asc(s: &Vec<(usize, usize)>) -> (r: Vec<(usize, usize)>)
    ensures
        r@ == sorted_asc(s@),
{
    let mut out: Vec<(usize, usize)> = Vec::new();
    let mut i: usize = 0;
    while i < s.len()
        invariant
            i <= s@.len(),
            out@ == sorted_asc(s@.take(i as int)),
        decreases s@.len() - i,
    {
        assert(s@.take(i + 1).drop_last() =~= s@.take(i as int));
        let x = s[i];
        let ghost t0 = out@;
        let mut p: usize = 0;
        while p < out.len() && out[p].0 <= x.0
            invariant
                p <= out@.len(),
                t0 == out@,
                forall|j: int| 0 <= j < p ==> t0[j].0 <= x.0,
            decreases out@.len() - p,
        {
            p += 1;
        }
        proof {
            lemma_insert_asc_at(t0, x, p as int);
        }
        out.insert(p, x);
        assert(out@ =~= t0.take(p as int) + seq![x] + t0.skip(p as int));
        i += 1;
    }
    assert(s@.take(i as int) =~= s@);
    out
}

fn dedup_spans(s: &Vec<(usize, usize)>) -> (r: Vec<(usize, usize)>)
    ensures
        r@ == dedup(s@),
{
    let mut out: Vec<(usize, usize)> = Vec::new();
    let mut i: usize = 0;
    while i < s.len()
        invariant
            i <= s@.len(),
            out@ == dedup(s@.take(i as int)),
        decreases s@.len() - i,
    {
        assert(s@.take(i + 1).drop_last() =~= s@.take(i as int));
        let x = s[i];
        if out.len() > 0 && out[out.len() - 1].0 == x.0 && out[out.len() - 1].1 == x.1 {
        } else {
            out.push(x);
        }
        i += 1;
    }
    assert(s@.take(i as int) =~= s@);
    out
}

/// Gather the byte ranges to replace, and the row of the statement the
/// declaration goes before: the selection `es..ee` in the statement on row
/// `initial_row`, and, when replacing all, the other occurrences `matches`.
pub fn collect_replacements(
    replace_all: bool,
    es: usize,
    ee: usize,
    initial_row: usize,
    matches: &[MatchSite],
) -> (r: (Vec<(usize, usize)>, usize))
    ensures
        (r.0@, r.1) == replacements_for(replace_all, es, ee, initial_row, matches@),
{
    let mut reps: Vec<(usize, usize)> = Vec::new();
    reps.push((es, ee));
    if !replace_all {
        return (reps, initial_row);
    }
    let mut earliest = initial_row;
    let mut i: usize = 0;
    while i < matches.len()
        invariant
            i <= matches@.len(),
            reps@ == seq![(es, ee)] + kept_spans(matches@.take(i as int), es, ee),
            earliest == earliest_row(matches@.take(i as int), es, ee, initial_row),
        decreases matches@.len() - i,
    {
        assert(matches@.take(i + 1).drop_last() =~= matches@.take(i as int));
        let m = &matches[i];
        let ghost before = reps@;
        if !(m.start == es && m.end == ee) && !m.assignment_target {
            reps.push((m.start, m.end));
            match m.statement_row {
                Some(row) => {
                    if row < earliest {
                        earliest = row;
                    }
                },
                None => {},
            }
            assert(reps@ =~= before + seq![(m.start, m.end)]);
        } else {
            assert(reps@ =~= before + Seq::<(usize, usize)>::empty());
        }
        i += 1;
    }
    assert(matches@.take(i as int) =~= matches@);
    let sorted = sort_spans_asc(&reps);
    (dedup_spans(&sorted), earliest)
}

/// The number of replacements a report shows, at most `u32::MAX`.
pub fn replacement_count(n: usize) -> (r: u32)
    ensures
        r == if n <= u32::MAX {
            n as u32
        } else {
            u32::MAX
        },
{
    if n <= 0xffff_ffffusize {
        n as u32
    } else {
        u32::MAX
    }
}

// ── Warnings ───────────────────────────────────────────────────────────────

/// The warnings: the name collides with one in scope; a constant's name is
/// not `UPPER_SNAKE_CASE`.
pub open spec fn introduce_warnings(name: Seq<char>, collision: Option<CollisionKind>, as_const: bool) -> Seq<Seq<char>> {
    (match collision {
        Some(k) => seq!["'"@ + name + "' collides with a "@ + kind_text(k)],
        None => Seq::empty(),
    }) + if as_const && !upper_snake(name) {
        seq!["constant name '"@ + name + "' is not UPPER_SNAKE_CASE"@]
    } else {
        Seq::empty()
    }
}

/// The warnings of an introduce-variable run.
pub fn variable_warnings(name: &str, collision: Option<CollisionKind>, as_const: bool) -> (r: Vec<String>)
    ensures
        string_texts(r@) == introduce_warnings(name@, collision, as_const),
{
    let mut w: Vec<String> = Vec::new();
    match collision {
        Some(k) => {
            w.push(concat_strs(&["'", name, "' collides with a ", k.describe()]));
            proof {
                reveal_with_fuel(concat_views, 5);
            }
        },
        None => {},
    }
    let ghost w0 = string_texts(w@);
    if as_const && !is_upper_snake_case(name) {
        w.push(concat_strs(&["constant name '", name, "' is not UPPER_SNAKE_CASE"]));
        proof {
            reveal_with_fuel(concat_views, 4);
        }
        assert(string_texts(w@) =~= w0 + seq!["constant name '"@ + name@ + "' is not UPPER_SNAKE_CASE"@]);
    } else {
        assert(string_texts(w@) =~= w0 + Seq::<Seq<char>>::empty());
    }
    w
}

// ── Applying ───────────────────────────────────────────────────────────────

/// The declaration line: `{indent}var name: Type = expr` (or `const`), with
/// its line feed.
pub open spec fn declaration_line(indent: Seq<char>, as_const: bool, name: Seq<char>, ty: Option<Seq<char>>, expr: Seq<char>) -> Seq<char> {
    indent + (if as_const {
        "const"@
    } else {
        "var"@
    }) + " "@ + name + (match ty {
        Some(t) => ": "@ + t,
        None => Seq::empty(),
    }) + " = "@ + expr + "\n"@
}

/// Build the declaration line.
pub fn build_declaration(indent: &str, as_const: bool, name: &str, ty: Option<&str>, expr: &str) -> (r: String)
    ensures
        r@ == declaration_line(
            indent@,
            as_const,
            name@,
            match ty {
                Some(t) => Some(t@),
                None => None,
            },
            expr@,
        ),
{
    let keyword = if as_const {
        "const"
    } else {
        "var"
    };
    proof {
        reveal_with_fuel(concat_views, 10);
    }
    match ty {
        Some(t) => {
            let r = concat_strs(&[indent, keyword, " ", name, ": ", t, " = ", expr, "\n"]);
            assert(r@ =~= declaration_line(indent@, as_const, name@, Some(t@), expr@));
            r
        },
        None => {
            let r = concat_strs(&[indent, keyword, " ", name, " = ", expr, "\n"]);
            assert(r@ =~= declaration_line(indent@, as_const, name@, None, expr@));
            r
        },
    }
}

/// The edits that put `name` in place of each range, last first.
pub open spec fn name_edits(reps: Seq<(usize, usize)>, name: Seq<char>) -> Seq<(int, int, Seq<char>)> {
    edits_desc(reps.map_values(|r: (usize, usize)| (r.0 as int, r.1 as int, name)))
}

/// The byte at which line `line` of the original source starts.
pub open spec fn line_start(src: Seq<char>, line: usize) -> int {
    nl_starts(encode_utf8(src))[line as int] as int
}

/// The replacements can be made, and the declaration inserted at the start of
/// line `line` of the original (otherwise the edits panic).
pub open spec fn introduce_applicable(src: Seq<char>, reps: Seq<(usize, usize)>, name: Seq<char>, line: usize) -> bool {
    &&& edits_valid(src, name_edits(reps, name))
    &&& line < nl_starts(encode_utf8(src)).len()
    &&& span_ok(applied(src, name_edits(reps, name)), line_start(src, line), line_start(src, line))
}

/// The source with every range replaced by `name` and the declaration line
/// inserted at the start of line `line` of the original.
pub open spec fn introduced(src: Seq<char>, reps: Seq<(usize, usize)>, name: Seq<char>, line: usize, decl: Seq<char>) -> Seq<char> {
    let replaced = applied(src, name_edits(reps, name));
    span_replaced(replaced, line_start(src, line), line_start(src, line), decl)
}

fn name_edits_of(reps: &[(usize, usize)], name: &str) -> (r: Vec<(usize, usize, String)>)
    ensures
        edit_views(r@) == name_edits(reps@, name@),
{
    let ghost m = reps@.map_values(|r: (usize, usize)| (r.0 as int, r.1 as int, name@));
    let mut es: Vec<(usize, usize, String)> = Vec::new();
    let mut i: usize = 0;
    while i < reps.len()
        invariant
            i <= reps@.len(),
            m == reps@.map_values(|r: (usize, usize)| (r.0 as int, r.1 as int, name@)),
            edit_views(es@) == m.take(i as int),
        decreases reps@.len() - i,
    {
        let ghost prev = edit_views(es@);
        es.push((reps[i].0, reps[i].1, String::from_str(name)));
        assert(edit_views(es@) =~= prev.push(m[i as int]));
        assert(m.take(i + 1) =~= m.take(i as int).push(m[i as int]));
        i += 1;
    }
    assert(m.take(i as int) =~= m);
    sort_edits_desc(es)
}

/// Whether the replacements and the declaration's insertion can be made.
pub fn can_introduce(source: &str, reps: &[(usize, usize)], name: &str, line: usize) -> (r: bool)
    ensures
        r == introduce_applicable(source@, reps@, name@, line),
{
    let es = name_edits_of(reps, name);
    if !crate::edits::edits_applicable(source, &es) {
        return false;
    }
    let starts = crate::refactor::line_starts(source);
    if line >= starts.len() {
        return false;
    }
    let replaced = crate::edits::apply_edits(source, &es);
    crate::edits::span_is_ok(replaced.as_str(), starts[line], starts[line])
}

/// Replace every range with `name` (last first), then insert the declaration
/// line at the start of line `line` of the original source.
pub fn apply_introduce(source: &str, reps: &[(usize, usize)], name: &str, line: usize, decl: &str) -> (r: String)
    requires
        introduce_applicable(source@, reps@, name@, line),
    ensures
        r@ == introduced(source@, reps@, name@, line, decl@),
{
    let es = name_edits_of(reps, name);
    let starts = crate::refactor::line_starts(source);
    let replaced = crate::edits::apply_edits(source, &es);
    let at = starts[line];
    crate::syntax::replace_span(replaced.as_str(), at, at, decl)
}

// ── The expression ─────────────────────────────────────────────────────────

/// The selected expression: its text and kind, its byte range, and the row
/// of the statement that holds it.
pub struct ExpressionSite {
    pub expression: String,
    pub kind: String,
    pub start: usize,
    pub end: usize,
    pub statement_row: usize,
}

/// Why no variable can be introduced at the selection, if that is so.
pub open spec fn locate_error(chain: Seq<SyntaxNode>, line: usize, column: usize, end_column: usize) -> Option<Seq<char>> {
    match var_expression_index(chain) {
        None => Some(
            "no expression found at "@ + decimal(line as nat) + ":"@ + decimal(column as nat) + "-"@ + decimal(
                end_column as nat,
            ),
        ),
        Some(e) => if containing_stmt(chain, e) is None {
            Some("cannot find containing statement for the expression"@)
        } else {
            None
        },
    }
}

/// Find the expression at a selection (1-based `line`, `column`..`end_column`)
/// and the statement that holds it, given the nodes that hold the selection
/// from the innermost outwards.
pub fn locate_expression(source: &str, chain: &[SyntaxNode], line: usize, column: usize, end_column: usize) -> (r: Result<ExpressionSite, String>)
    requires
        forall|i: int| 0 <= i < chain@.len() ==> tree_ok(source@, #[trigger] chain@[i]),
    ensures
        match r {
            Ok(x) => locate_error(chain@, line, column, end_column) is None && {
                let e = chain@[var_expression_index(chain@).unwrap()];
                let st = chain@[containing_stmt(chain@, var_expression_index(chain@).unwrap()).unwrap()];
                &&& x.expression@ == text_of(source@, e)
                &&& x.kind@ == e.kind@
                &&& x.start == e.start_byte
                &&& x.end == e.end_byte
                &&& x.statement_row == st.start_row
            },
            Err(m) => locate_error(chain@, line, column, end_column) == Some(m@),
        },
{
    let ei = match find_expression_at(chain) {
        Some(i) => i,
        None => {
            let l = decimal_string(line);
            let c = decimal_string(column);
            let e = decimal_string(end_column);
            proof {
                reveal_with_fuel(concat_views, 7);
            }
            return Err(concat_strs(&["no expression found at ", l.as_str(), ":", c.as_str(), "-", e.as_str()]));
        },
    };
    let si = match find_containing_statement(chain, ei) {
        Some(i) => i,
        None => return Err(String::from_str("cannot find containing statement for the expression")),
    };
    let e = &chain[ei];
    assert(tree_ok(source@, *e));
    let expression = node_text(e, source);
    let kind = String::from_str(e.kind.as_str());
    Ok(ExpressionSite { expression, kind, start: e.start_byte, end: e.end_byte, statement_row: chain[si].start_row })
}

} // verus!
