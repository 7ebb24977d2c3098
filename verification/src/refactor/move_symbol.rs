//! Move-symbol: move a declaration to another file or class.
use vstd::prelude::*;

use vstd::utf8::{encode_utf8, encode_utf8_valid_utf8, is_char_boundary_start_end_of_seq};

use crate::refactor::delete_symbol::{
    DeleteError, DeleteErrorKind, ReferenceHit, find_delete_target, lookup, opt_str, or_empty,
    own_reference, remove_declaration, rows_within, without_declaration,
};
use crate::refactor::{
    PreloadRef, char_w, class_index, decl_by_name_index, decl_name, find_class_definition,
    find_declaration_in_class, find_top_decl, first_attached, full_range, is_decl_kind,
    lemma_nl_starts, named_decl, nl_starts, re_indent_to_depth, reindent_ok, reindented, wlen,
};
use crate::syntax::{
    child, named_child, node_text, replace_span, slice_str, span_ok, span_replaced, text_between,
};
use crate::syntax::{
    SyntaxNode, child_by_field_name, field_child, first_named, first_named_child, kind_is,
    text_of, tree_ok,
};
use crate::text::{
    join, join_lines, lines, lines_of,
    chars_of, concat_strs, concat_views, decimal, decimal_string, ends_with, lemma_lex_order,
    lex_less, lex_lt, push_str, repeat, seq_eq, string_of, trail_ws, trim_char, trim_end,
    trim_matches,
};

use crate::parse::{fitting_tree, parse_fitting};

verus! {

/// A preload line added to a caller after a move.
pub struct CallerUpdate {
    pub file: String,
    pub added_preload: String,
}

// ── Insertion spacing ──────────────────────────────────────────────────────

/// Line feeds to add before a declaration of kind `kind` appended to `target`:
/// functions and classes want their trailing whitespace to reach three bytes,
/// other declarations two; an empty (or blank) target gets none.
pub open spec fn spacing(kind: Seq<char>, target: Seq<char>) -> Seq<char> {
    let trailing = wlen(target.skip(target.len() - trail_ws(target)));
    let want: nat = if kind == "function_definition"@ || kind == "constructor_definition"@ || kind
        == "class_definition"@ {
        3
    } else {
        2
    };
    if trim_end(target).len() == 0 {
        Seq::empty()
    } else if trailing >= want {
        Seq::empty()
    } else {
        repeat(seq!['\n'], (want - trailing) as nat)
    }
}

/// Determine blank-line spacing to add before inserting a declaration into an existing file.
pub fn insertion_spacing(decl_kind: &str, target_source: &str) -> (r: String)
    ensures
        r@ == spacing(decl_kind@, target_source@),
{
    let t = chars_of(target_source);
    let k = crate::text::trail_ws_len(&t);
    proof {
        crate::text::lemma_trail_ws_bound(t@);
    }
    if k == t.len() {
        assert(trim_end(t@).len() == 0);
        return String::new();
    }
    let needs_extra = crate::refactor::str_eq(decl_kind, "function_definition")
        || crate::refactor::str_eq(decl_kind, "constructor_definition")
        || crate::refactor::str_eq(decl_kind, "class_definition");
    let want: u128 = if needs_extra { 3 } else { 2 };
    let mut trailing: u128 = 0;
    let mut j: usize = t.len() - k;
    let ghost tail = t@.skip(t@.len() - k);
    while j < t.len()
        invariant
            t@.len() - k <= j <= t@.len(),
            k <= t@.len(),
            tail.len() == k,
            k == trail_ws(t@),
            tail == t@.skip(t@.len() - k),
            trailing == wlen(tail.take(j - (t@.len() - k))),
            trailing <= 4 * (j - (t@.len() - k)),
        decreases t@.len() - j,
    {
        let ghost i = j - (t@.len() - k);
        assert(tail.take(i + 1).drop_last() =~= tail.take(i));
        assert(tail[i] == t@[j as int]);
        let c = t[j];
        let u = c as u32;
        let w: u128 = if u < 0x80 {
            1
        } else if u < 0x800 {
            2
        } else if u < 0x10000 {
            3
        } else {
            4
        };
        trailing = trailing + w;
        j += 1;
    }
    assert(tail.take(k as int) =~= tail);
    if trailing >= want {
        return String::new();
    }
    let mut out: Vec<char> = Vec::new();
    let mut n: u128 = 0;
    while n < want - trailing
        invariant
            n <= want - trailing,
            out@ == repeat(seq!['\n'], n as nat),
        decreases want - trailing - n,
    {
        out.push('\n');
        n += 1;
        assert(out@ =~= repeat(seq!['\n'], (n - 1) as nat) + seq!['\n']);
    }
    string_of(&out)
}


// ── Preload detection ──────────────────────────────────────────────────────

/// A parsed file of the workspace, named by its project-relative path.
pub struct WorkspaceFile {
    pub relative_path: String,
    pub source: String,
    /// The parse tree, when the file parsed.
    pub root: Option<SyntaxNode>,
}

/// The callee of a call: its `function` field, else its first named child.
pub open spec fn callee(n: SyntaxNode) -> Option<SyntaxNode> {
    match field_child(n, "function"@) {
        Some(c) => Some(c),
        None => match first_named(n) {
            Some(i) => if 0 <= i < n.children@.len() {
                Some(n.children@[i])
            } else {
                None
            },
            None => None,
        },
    }
}

/// A string literal's text without surrounding double, then single, quotes.
pub open spec fn unquoted(t: Seq<char>) -> Seq<char> {
    trim_matches(trim_matches(t, '"'), '\'')
}

/// The preload records for the string arguments among the first `k`
/// argument children that name `target`.
pub open spec fn matching_args(args: Seq<SyntaxNode>, src: Seq<char>, target: Seq<char>, file: Seq<char>, line: u32, k: int) -> Seq<(Seq<char>, u32, Seq<char>)>
    decreases k,
{
    if k <= 0 || k > args.len() {
        Seq::empty()
    } else {
        let prev = matching_args(args, src, target, file, line, k - 1);
        let a = args[k - 1];
        if a.kind@ == "string"@ && unquoted(text_of(src, a)) == target {
            prev.push((file, line, unquoted(text_of(src, a))))
        } else {
            prev
        }
    }
}

/// The preload records a node itself contributes: for a `preload(..)`/`load(..)`
/// call, each string argument equal (unquoted) to `target`, on the call's 1-based line.
pub open spec fn own_preloads(n: SyntaxNode, src: Seq<char>, target: Seq<char>, file: Seq<char>) -> Seq<(Seq<char>, u32, Seq<char>)> {
    if n.kind@ == "call"@ && callee(n) is Some && (text_of(src, callee(n)->0) == "preload"@
        || text_of(src, callee(n)->0) == "load"@) && field_child(n, "arguments"@) is Some {
        let args = field_child(n, "arguments"@)->0;
        matching_args(args.children@, src, target, file, ((n.start_row as u32) + 1) as u32, args.children@.len() as int)
    } else {
        Seq::empty()
    }
}

/// The preload records of `target` in a subtree, in pre-order.
pub open spec fn preloads_of(n: SyntaxNode, src: Seq<char>, target: Seq<char>, file: Seq<char>) -> Seq<(Seq<char>, u32, Seq<char>)>
    decreases n, n.children@.len() + 1,
{
    own_preloads(n, src, target, file) + preloads_in_children(n, src, target, file, n.children@.len() as int)
}

/// The preloads under the first `k` children of `n`.
pub open spec fn preloads_in_children(n: SyntaxNode, src: Seq<char>, target: Seq<char>, file: Seq<char>, k: int) -> Seq<(Seq<char>, u32, Seq<char>)>
    decreases n, k,
{
    if k <= 0 || k > n.children@.len() {
        Seq::empty()
    } else {
        preloads_in_children(n, src, target, file, k - 1) + preloads_of(n.children@[k - 1], src, target, file)
    }
}

/// Every node starts on a row whose 1-based number fits in `u32`.
pub open spec fn rows_fit(n: SyntaxNode) -> bool
    decreases n,
{
    &&& n.start_row < u32::MAX
    &&& forall|i: int| 0 <= i < n.children@.len() ==> rows_fit(#[trigger] n.children@[i])
}

/// The preload records as values.
pub open spec fn preload_view(refs: Seq<PreloadRef>) -> Seq<(Seq<char>, u32, Seq<char>)> {
    refs.map_values(|r: PreloadRef| (r.file@, r.line, r.path@))
}

pub(crate) fn callee_index(node: &SyntaxNode) -> (r: Option<usize>)
    ensures
        match r {
            Some(i) => i < node.children@.len() && callee(*node) == Some(node.children@[i as int]),
            None => callee(*node) is None,
        },
{
    match crate::syntax::field_child_index(node, "function") {
        Some(i) => Some(i),
        None => first_named_child(node),
    }
}

fn push_matching_args(args: &SyntaxNode, source: &str, target: &[char], file: &str, line: u32, refs: &mut Vec<PreloadRef>)
    requires
        tree_ok(source@, *args),
    ensures
        preload_view(final(refs)@) == preload_view(old(refs)@) + matching_args(args.children@, source@, target@, file@, line, args.children@.len() as int),
{
    let ghost before = preload_view(refs@);
    let mut k: usize = 0;
    assert(preload_view(refs@) =~= before + matching_args(args.children@, source@, target@, file@, line, 0));
    while k < args.children.len()
        invariant
            k <= args.children@.len(),
            tree_ok(source@, *args),
            preload_view(refs@) == before + matching_args(args.children@, source@, target@, file@, line, k as int),
        decreases args.children@.len() - k,
    {
        let a = &args.children[k];
        assert(tree_ok(source@, *a));
        if kind_is(a, "string") {
            let text = crate::syntax::node_text(a, source);
            let tc = chars_of(text.as_str());
            let u1 = trim_char(&tc, '"');
            let u2 = trim_char(&u1, '\'');
            if seq_eq(&u2, target) {
                let ghost old_refs = refs@;
                refs.push(PreloadRef { file: String::from_str(file), line, path: string_of(&u2) });
                assert(preload_view(refs@) =~= preload_view(old_refs).push((file@, line, u2@)));
            }
        }
        k += 1;
    }
}

fn push_own_preloads(node: &SyntaxNode, source: &str, target: &[char], file: &str, refs: &mut Vec<PreloadRef>)
    requires
        tree_ok(source@, *node),
        node.start_row < u32::MAX,
    ensures
        preload_view(final(refs)@) == preload_view(old(refs)@) + own_preloads(*node, source@, target@, file@),
{
    if !kind_is(node, "call") {
        assert(preload_view(refs@) =~= preload_view(refs@) + own_preloads(*node, source@, target@, file@));
        return;
    }
    let ci = match callee_index(node) {
        Some(i) => i,
        None => {
            assert(preload_view(refs@) =~= preload_view(refs@) + own_preloads(*node, source@, target@, file@));
            return;
        },
    };
    assert(tree_ok(source@, node.children@[ci as int]));
    let name = crate::syntax::node_text(&node.children[ci], source);
    let is_load = crate::refactor::str_eq(name.as_str(), "preload") || crate::refactor::str_eq(name.as_str(), "load");
    if !is_load {
        assert(preload_view(refs@) =~= preload_view(refs@) + own_preloads(*node, source@, target@, file@));
        return;
    }
    match child_by_field_name(node, "arguments") {
        Some(args) => {
            assert(tree_ok(source@, *args));
            let line_no: u32 = (node.start_row as u32) + 1;
            push_matching_args(args, source, target, file, line_no, refs);
        },
        None => {
            assert(preload_view(refs@) =~= preload_view(refs@) + own_preloads(*node, source@, target@, file@));
        },
    }
}

#[verifier::rlimit(40)]
fn find_preloads_in_tree(node: &SyntaxNode, source: &str, target: &[char], file: &str, refs: &mut Vec<PreloadRef>)
    requires
        tree_ok(source@, *node),
        rows_fit(*node),
    ensures
        preload_view(final(refs)@) == preload_view(old(refs)@) + preloads_of(*node, source@, target@, file@),
    decreases node,
{
    let ghost start = preload_view(refs@);
    push_own_preloads(node, source, target, file, refs);
    let ghost mid = preload_view(refs@);
    let mut i: usize = 0;
    assert(preload_view(refs@) =~= mid + preloads_in_children(*node, source@, target@, file@, 0));
    while i < node.children.len()
        invariant
            i <= node.children@.len(),
            tree_ok(source@, *node),
            rows_fit(*node),
            preload_view(refs@) == mid + preloads_in_children(*node, source@, target@, file@, i as int),
        decreases node.children@.len() - i,
    {
        assert(tree_ok(source@, node.children@[i as int]));
        assert(rows_fit(node.children@[i as int]));
        find_preloads_in_tree(&node.children[i], source, target, file, refs);
        i += 1;
    }
    assert(preload_view(refs@) =~= start + preloads_of(*node, source@, target@, file@));
}

/// The preloads of `res_path` over the first `k` files.
pub open spec fn preloads_upto(files: Seq<WorkspaceFile>, target: Seq<char>, k: int) -> Seq<(Seq<char>, u32, Seq<char>)>
    decreases k,
{
    if k <= 0 || k > files.len() {
        Seq::empty()
    } else {
        let f = files[k - 1];
        preloads_upto(files, target, k - 1) + match f.root {
            Some(r) => preloads_of(r, f.source@, target, f.relative_path@),
            None => Seq::empty(),
        }
    }
}

/// Every parsed file's tree fits its source.
pub open spec fn files_ok(files: Seq<WorkspaceFile>) -> bool {
    forall|i: int| 0 <= i < files.len() ==> match (#[trigger] files[i]).root {
        Some(r) => tree_ok(files[i].source@, r) && rows_fit(r),
        None => true,
    }
}

/// Find all preload()/load() references to a given `res://` path across the workspace.
pub fn find_preloads_to_file(res_path: &str, files: &Vec<WorkspaceFile>) -> (refs: Vec<PreloadRef>)
    requires
        files_ok(files@),
    ensures
        preload_view(refs@) == preloads_upto(files@, res_path@, files@.len() as int),
{
    let target = chars_of(res_path);
    let mut refs: Vec<PreloadRef> = Vec::new();
    assert(preload_view(refs@) =~= Seq::empty());
    let mut i: usize = 0;
    while i < files.len()
        invariant
            i <= files@.len(),
            files_ok(files@),
            target@ == res_path@,
            preload_view(refs@) == preloads_upto(files@, res_path@, i as int),
        decreases files@.len() - i,
    {
        let f = &files[i];
        match &f.root {
            Some(root) => {
                assert(tree_ok(f.source@, *root) && rows_fit(*root));
                find_preloads_in_tree(root, f.source.as_str(), &target, f.relative_path.as_str(), &mut refs);
            },
            None => {
                assert(preload_view(refs@) =~= preloads_upto(files@, res_path@, i + 1));
            },
        }
        i += 1;
    }
    refs
}

// ── The moved block ────────────────────────────────────────────────────────

/// The declaration's block (doc comments, annotations, the declaration and
/// its line feed), ending with a line feed.
pub open spec fn block_of(src: Seq<char>, d: SyntaxNode) -> Seq<char> {
    let t = text_between(src, full_range(src, d).0 as int, full_range(src, d).1 as int);
    if ends_with(t, "\n"@) {
        t
    } else {
        t.push('\n')
    }
}

proof fn lemma_first_attached_le(src: Seq<char>, d: nat)
    ensures
        first_attached(src, d) <= d,
    decreases d,
{
    if d > 0 {
        lemma_first_attached_le(src, (d - 1) as nat);
    }
}

proof fn lemma_block_span(src: Seq<char>, d: SyntaxNode)
    requires
        tree_ok(src, d),
        rows_within(src, d),
        encode_utf8(src).len() <= usize::MAX,
    ensures
        span_ok(src, full_range(src, d).0 as int, full_range(src, d).1 as int),
{
    let bs = encode_utf8(src);
    lemma_nl_starts(bs);
    crate::refactor::lemma_nl_starts_boundary(src);
    encode_utf8_valid_utf8(src);
    is_char_boundary_start_end_of_seq(bs);
    let f = first_attached(src, d.start_row as nat);
    lemma_first_attached_le(src, d.start_row as nat);
    assert(span_ok(src, nl_starts(bs)[f as int] as int, bs.len() as int));
    if (f as int) < (d.start_row as int) {
        assert(nl_starts(bs)[f as int] < nl_starts(bs)[d.start_row as int]);
    }
    if d.end_byte < bs.len() && bs[d.end_byte as int] == 10u8 {
        crate::syntax::lemma_after_newline_boundary(bs, d.end_byte as int);
    }
}

/// The declaration's block, ending with a line feed.
pub fn declaration_block(source: &str, decl: &SyntaxNode) -> (r: String)
    requires
        tree_ok(source@, *decl),
        rows_within(source@, *decl),
    ensures
        r@ == block_of(source@, *decl),
{
    let (a, b) = crate::refactor::declaration_full_range(decl, source);
    let n = source.as_bytes().len();
    proof {
        lemma_block_span(source@, *decl);
    }
    let t = slice_str(source, a, b);
    let tc = chars_of(t.as_str());
    let nl = ['\n'];
    assert(nl@ =~= "\n"@) by {
        reveal_strlit("\n");
    }
    if crate::text::has_suffix(&tc, &nl) {
        t
    } else {
        let mut out = t;
        crate::text::push_char(&mut out, '\n');
        out
    }
}

/// The depth a moved block is re-indented to: out of a class to top level,
/// none; from top level into a class, one tab; otherwise it keeps its own.
pub open spec fn move_depth(from_class: bool, to_class: bool) -> Option<nat> {
    if from_class && !to_class {
        Some(0)
    } else if !from_class && to_class {
        Some(1)
    } else {
        None
    }
}

/// The moved block at its new depth, ending with a line feed.
pub open spec fn moved_block(block: Seq<char>, depth: Option<nat>) -> Seq<char> {
    match depth {
        Some(d) => {
            let re = reindented(block, repeat(seq!['\t'], d));
            if ends_with(re, "\n"@) {
                re
            } else {
                re.push('\n')
            }
        },
        None => block,
    }
}

/// Re-indent a moved block for its new scope.
pub fn reindent_block(block: &str, from_class: bool, to_class: bool) -> (r: String)
    requires
        move_depth(from_class, to_class) is Some ==> reindent_ok(block@),
    ensures
        r@ == moved_block(block@, move_depth(from_class, to_class)),
{
    let depth: Option<usize> = if from_class && !to_class {
        Some(0)
    } else if !from_class && to_class {
        Some(1)
    } else {
        None
    };
    match depth {
        Some(d) => {
            let re = re_indent_to_depth(block, d);
            let rc = chars_of(re.as_str());
            let nl = ['\n'];
            assert(nl@ =~= "\n"@) by {
                reveal_strlit("\n");
            }
            if crate::text::has_suffix(&rc, &nl) {
                re
            } else {
                let mut out = re;
                crate::text::push_char(&mut out, '\n');
                out
            }
        },
        None => String::from_str(block),
    }
}

// ── Checks against the target ──────────────────────────────────────────────

/// The target already declares `name` (in the target class, when one is given).
pub open spec fn target_duplicate(root: SyntaxNode, src: Seq<char>, name: Seq<char>, target_class: Option<Seq<char>>) -> bool {
    match target_class {
        Some(tc) => match class_index(root.children@, src, tc) {
            Some(ci) => match crate::syntax::field_child(root.children@[ci], "body"@) {
                Some(b) => decl_by_name_index(b.children@, src, name) is Some,
                None => false,
            },
            None => false,
        },
        None => decl_by_name_index(root.children@, src, name) is Some,
    }
}

/// Whether the target already declares `name`.
pub fn has_duplicate(target_root: &SyntaxNode, target_source: &str, name: &str, target_class: Option<&str>) -> (r: bool)
    requires
        tree_ok(target_source@, *target_root),
    ensures
        r == target_duplicate(*target_root, target_source@, name@, opt_str(target_class)),
{
    match target_class {
        Some(tc) => match find_class_definition(target_root, target_source, tc) {
            Some(c) => {
                let ghost i = choose|i: int|
                    0 <= i < target_root.children@.len() && class_index(
                        target_root.children@,
                        target_source@,
                        tc@,
                    ) == Some(i) && target_root.children@[i] == *c;
                assert(tree_ok(target_source@, target_root.children@[i]));
                find_declaration_in_class(c, target_source, name).is_some()
            },
            None => false,
        },
        None => crate::refactor::find_declaration_by_name(target_root, target_source, name).is_some(),
    }
}

/// The number of references outside the moved node.
pub open spec fn external_count(hits: Seq<ReferenceHit>, rows: (u32, u32)) -> nat
    decreases hits.len(),
{
    if hits.len() == 0 {
        0
    } else {
        external_count(hits.drop_last(), rows) + if own_reference(hits.last(), rows) {
            0nat
        } else {
            1nat
        }
    }
}

/// `N reference(s) to 'name' may need updating`, when there are any.
pub open spec fn reference_warning(count: nat, name: Seq<char>) -> Seq<Seq<char>> {
    if count == 0 {
        Seq::empty()
    } else {
        seq![decimal(count) + " reference"@ + (if count == 1 {
            ""@
        } else {
            "s"@
        }) + " to '"@ + name + "' may need updating"@]
    }
}

/// The number of references outside the given rows of the edited file.
pub(crate) fn count_external(hits: &[ReferenceHit], own_rows: (u32, u32)) -> (count: usize)
    ensures
        count == external_count(hits@, own_rows),
{
    let mut count: usize = 0;
    let mut i: usize = 0;
    while i < hits.len()
        invariant
            i <= hits@.len(),
            count == external_count(hits@.take(i as int), own_rows),
            count <= i,
        decreases hits@.len() - i,
    {
        assert(hits@.take(i + 1).drop_last() =~= hits@.take(i as int));
        let h = &hits[i];
        if !(h.same_file && own_rows.0 <= h.line && h.line <= own_rows.1) {
            count += 1;
        }
        i += 1;
    }
    assert(hits@.take(i as int) =~= hits@);
    count
}

/// The warning about references that may need updating after a move.
pub fn references_warning(hits: &[ReferenceHit], own_rows: (u32, u32), name: &str) -> (r: Vec<String>)
    ensures
        r@.map_values(|w: String| w@) == reference_warning(external_count(hits@, own_rows), name@),
{
    let count = count_external(hits, own_rows);
    let mut r: Vec<String> = Vec::new();
    if count > 0 {
        let n = decimal_string(count);
        let s = if count == 1 { "" } else { "s" };
        let w = concat_strs(&[n.as_str(), " reference", s, " to '", name, "' may need updating"]);
        proof {
            reveal_with_fuel(concat_views, 7);
        }
        r.push(w);
    }
    assert(r@.map_values(|w: String| w@) =~= reference_warning(count as nat, name@));
    r
}

// ── Self references ────────────────────────────────────────────────────────

/// The member a `self.member` (or `self.method()`) attribute node names.
pub open spec fn self_member(n: SyntaxNode, src: Seq<char>) -> Option<Seq<char>> {
    if n.kind@ == "attribute"@ && (child(n, 0) matches Some(o) && o.kind@ == "identifier"@ && text_of(src, o) == "self"@) {
        match child(n, 2) {
            Some(m) => if m.kind@ == "attribute_call"@ {
                match named_child(m, 0) {
                    Some(c) => Some(text_of(src, c)),
                    None => None,
                }
            } else {
                Some(text_of(src, m))
            },
            None => None,
        }
    } else {
        None
    }
}

/// The members named by `self.…` in a subtree, in pre-order.
pub open spec fn self_refs(n: SyntaxNode, src: Seq<char>) -> Seq<Seq<char>>
    decreases n, n.children@.len() + 1,
{
    (match self_member(n, src) {
        Some(m) => seq![m],
        None => Seq::empty(),
    }) + self_refs_in_children(n, src, n.children@.len() as int)
}

/// The members named under the first `k` children of `n`.
pub open spec fn self_refs_in_children(n: SyntaxNode, src: Seq<char>, k: int) -> Seq<Seq<char>>
    decreases n, k,
{
    if k <= 0 || k > n.children@.len() {
        Seq::empty()
    } else {
        self_refs_in_children(n, src, k - 1) + self_refs(n.children@[k - 1], src)
    }
}

/// Strictly increasing texts.
pub open spec fn strictly_sorted(v: Seq<Seq<char>>) -> bool {
    forall|i: int, j: int| 0 <= i < j < v.len() ==> lex_lt(#[trigger] v[i], #[trigger] v[j])
}

/// The texts of a list of character vectors.
pub open spec fn char_texts(v: Seq<Vec<char>>) -> Seq<Seq<char>> {
    v.map_values(|x: Vec<char>| x@)
}

fn own_self_member(node: &SyntaxNode, source: &str) -> (r: Option<Vec<char>>)
    requires
        tree_ok(source@, *node),
    ensures
        match r {
            Some(m) => self_member(*node, source@) == Some(m@),
            None => self_member(*node, source@) is None,
        },
{
    if !kind_is(node, "attribute") || node.children.len() == 0 {
        return None;
    }
    let o = &node.children[0];
    assert(tree_ok(source@, node.children@[0]));
    if !kind_is(o, "identifier") {
        return None;
    }
    let ot = node_text(o, source);
    if !crate::refactor::str_eq(ot.as_str(), "self") {
        return None;
    }
    if node.children.len() <= 2 {
        return None;
    }
    let m = &node.children[2];
    assert(tree_ok(source@, node.children@[2]));
    if kind_is(m, "attribute_call") {
        match crate::syntax::named_child_at(m, 0) {
            Some(c) => {
                proof {
                    crate::syntax::lemma_named_child_in(*m, 0);
                    let i = choose|i: int| 0 <= i < m.children@.len() && m.children@[i] == *c;
                    assert(tree_ok(source@, m.children@[i]));
                }
                let t = node_text(c, source);
                Some(chars_of(t.as_str()))
            },
            None => None,
        }
    } else {
        let t = node_text(m, source);
        Some(chars_of(t.as_str()))
    }
}

fn push_self_refs(node: &SyntaxNode, source: &str, out: &mut Vec<Vec<char>>)
    requires
        tree_ok(source@, *node),
    ensures
        char_texts(final(out)@) == char_texts(old(out)@) + self_refs(*node, source@),
    decreases node,
{
    let ghost start = char_texts(out@);
    match own_self_member(node, source) {
        Some(m) => {
            out.push(m);
            assert(char_texts(out@) =~= start + seq![self_member(*node, source@)->0]);
        },
        None => {
            assert(char_texts(out@) =~= start + Seq::<Seq<char>>::empty());
        },
    }
    let ghost mid = char_texts(out@);
    let mut i: usize = 0;
    assert(char_texts(out@) =~= mid + self_refs_in_children(*node, source@, 0));
    while i < node.children.len()
        invariant
            i <= node.children@.len(),
            tree_ok(source@, *node),
            char_texts(out@) == mid + self_refs_in_children(*node, source@, i as int),
        decreases node.children@.len() - i,
    {
        assert(tree_ok(source@, node.children@[i as int]));
        push_self_refs(&node.children[i], source, out);
        i += 1;
    }
    assert(char_texts(out@) =~= start + self_refs(*node, source@));
}

fn insert_sorted(v: &mut Vec<Vec<char>>, x: Vec<char>)
    requires
        strictly_sorted(char_texts(old(v)@)),
    ensures
        strictly_sorted(char_texts(final(v)@)),
        char_texts(final(v)@).to_set() == char_texts(old(v)@).to_set().insert(x@),
{
    let ghost old_t = char_texts(v@);
    let mut p: usize = 0;
    while p < v.len() && lex_less(&v[p], &x)
        invariant
            p <= v@.len(),
            old_t == char_texts(v@),
            forall|i: int| 0 <= i < p ==> lex_lt(#[trigger] old_t[i], x@),
        decreases v@.len() - p,
    {
        p += 1;
    }
    if p < v.len() && seq_eq(&v[p], &x) {
        assert(old_t.to_set().insert(x@) =~= old_t.to_set()) by {
            assert(old_t[p as int] == x@);
        }
        return;
    }
    proof {
        if p < v@.len() {
            lemma_lex_order(old_t[p as int], x@, x@);
        }
        assert forall|i: int| p <= i < old_t.len() implies lex_lt(x@, #[trigger] old_t[i]) by {
            if i > p {
                lemma_lex_order(x@, old_t[p as int], old_t[i]);
            }
            lemma_lex_order(old_t[p as int], x@, x@);
        }
    }
    v.insert(p, x);
    let ghost new_t = char_texts(v@);
    assert(new_t =~= old_t.insert(p as int, x@));
    assert forall|i: int, j: int| 0 <= i < j < new_t.len() implies lex_lt(#[trigger] new_t[i], #[trigger] new_t[j]) by {
        if j < p {
        } else if j == p {
        } else if i < p {
            lemma_lex_order(new_t[i], x@, new_t[j]);
        } else if i == p {
        } else {
            assert(new_t[i] == old_t[i - 1] && new_t[j] == old_t[j - 1]);
        }
    }
    assert(new_t.to_set() =~= old_t.to_set().insert(x@)) by {
        assert forall|y: Seq<char>| new_t.to_set().contains(y) implies old_t.to_set().insert(x@).contains(y) by {
            let k = choose|k: int| 0 <= k < new_t.len() && new_t[k] == y;
            if k > p {
                assert(old_t[k - 1] == y);
            } else if k < p {
                assert(old_t[k] == y);
            }
        }
        assert forall|y: Seq<char>| old_t.to_set().insert(x@).contains(y) implies new_t.to_set().contains(y) by {
            if y == x@ {
                assert(new_t[p as int] == y);
            } else {
                let k = choose|k: int| 0 <= k < old_t.len() && old_t[k] == y;
                if k < p {
                    assert(new_t[k] == y);
                } else {
                    assert(new_t[k + 1] == y);
                }
            }
        }
    }
}

/// The texts sorted, each once.
pub(crate) fn sort_unique(all: &Vec<Vec<char>>) -> (sorted: Vec<Vec<char>>)
    ensures
        strictly_sorted(char_texts(sorted@)),
        char_texts(sorted@).to_set() == char_texts(all@).to_set(),
{
    let mut sorted: Vec<Vec<char>> = Vec::new();
    let mut i: usize = 0;
    assert(char_texts(sorted@).to_set() =~= char_texts(all@).take(0).to_set());
    while i < all.len()
        invariant
            i <= all@.len(),
            strictly_sorted(char_texts(sorted@)),
            char_texts(sorted@).to_set() == char_texts(all@).take(i as int).to_set(),
        decreases all@.len() - i,
    {
        let x = crate::text::slice_of(&all[i], 0, all[i].len());
        assert(x@ =~= all@[i as int]@);
        insert_sorted(&mut sorted, x);
        assert(char_texts(all@).take(i + 1) =~= char_texts(all@).take(i as int).push(all@[i as int]@));
        proof {
            char_texts(all@).take(i as int).lemma_push_to_set_commute(all@[i as int]@);
        }
        i += 1;
    }
    assert(char_texts(all@).take(i as int) =~= char_texts(all@));
    sorted
}

/// Collect all `self.member` references in a node subtree: each member once,
/// in order.
pub fn collect_self_references(node: &SyntaxNode, source: &str) -> (r: Vec<String>)
    requires
        tree_ok(source@, *node),
    ensures
        strictly_sorted(r@.map_values(|s: String| s@)),
        r@.map_values(|s: String| s@).to_set() == self_refs(*node, source@).to_set(),
{
    let mut all: Vec<Vec<char>> = Vec::new();
    push_self_refs(node, source, &mut all);
    assert(char_texts(all@) =~= self_refs(*node, source@));
    let sorted = sort_unique(&all);
    let mut r: Vec<String> = Vec::new();
    let mut k: usize = 0;
    while k < sorted.len()
        invariant
            k <= sorted@.len(),
            r@.map_values(|s: String| s@) == char_texts(sorted@).take(k as int),
        decreases sorted@.len() - k,
    {
        let ghost r0 = r@;
        let t = string_of(&sorted[k]);
        r.push(t);
        assert(r@ =~= r0.push(t));
        assert(r@.map_values(|s: String| s@) =~= r0.map_values(|s: String| s@).push(sorted@[k as int]@));
        assert(char_texts(sorted@).take(k + 1) =~= char_texts(sorted@).take(k as int).push(sorted@[k as int]@));
        k += 1;
    }
    assert(char_texts(sorted@).take(k as int) =~= char_texts(sorted@));
    r
}

/// The scope to search for members: a class's body (the class itself when
/// it has none), or the node itself.
pub open spec fn member_scope(scope: SyntaxNode) -> SyntaxNode {
    if scope.kind@ == "class_definition"@ {
        match crate::syntax::field_child(scope, "body"@) {
            Some(b) => b,
            None => scope,
        }
    } else {
        scope
    }
}

/// The scope declares a member with the name.
pub open spec fn has_member(scope: SyntaxNode, src: Seq<char>, name: Seq<char>) -> bool {
    decl_by_name_index(member_scope(scope).children@, src, name) is Some
}

/// Check if a scope (class body or root) declares a member with the given name.
pub fn class_has_member(scope: &SyntaxNode, source: &str, name: &str) -> (r: bool)
    requires
        tree_ok(source@, *scope),
    ensures
        r == has_member(*scope, source@, name@),
{
    let search = if kind_is(scope, "class_definition") {
        match child_by_field_name(scope, "body") {
            Some(b) => {
                let ghost i = choose|i: int| 0 <= i < scope.children@.len() && scope.children@[i] == *b;
                assert(tree_ok(source@, scope.children@[i]));
                b
            },
            None => scope,
        }
    } else {
        scope
    };
    assert(*search == member_scope(*scope));
    crate::refactor::find_declaration_among(search, source, name).is_some()
}

/// `self.m referenced but 'm' not found in target` for each member the
/// scope lacks, in order.
pub open spec fn missing_member_warnings(members: Seq<Seq<char>>, scope: SyntaxNode, src: Seq<char>) -> Seq<Seq<char>>
    decreases members.len(),
{
    if members.len() == 0 {
        Seq::empty()
    } else {
        let r = missing_member_warnings(members.drop_last(), scope, src);
        let m = members.last();
        if has_member(scope, src, m) {
            r
        } else {
            r.push("self."@ + m + " referenced but '"@ + m + "' not found in target"@)
        }
    }
}

/// The target scope that a moved declaration's `self.` members must exist in:
/// the target class, or the target file itself.
pub open spec fn target_scope(root: SyntaxNode, src: Seq<char>, target_class: Option<Seq<char>>) -> Option<SyntaxNode> {
    match target_class {
        Some(tc) => match class_index(root.children@, src, tc) {
            Some(i) => Some(root.children@[i]),
            None => None,
        },
        None => Some(root),
    }
}

/// The warnings about `self.` members of a moved declaration that the target
/// lacks: only when moving into or out of a class, into an existing file
/// whose target scope exists.
pub open spec fn self_reference_warnings(
    src: Seq<char>,
    d: SyntaxNode,
    from_class: bool,
    target_class: Option<Seq<char>>,
    target: Option<(Seq<char>, SyntaxNode)>,
    members: Seq<Seq<char>>,
) -> Seq<Seq<char>> {
    if !(target_class is Some || from_class) || members.len() == 0 {
        Seq::empty()
    } else {
        match target {
            Some((tsrc, troot)) => match target_scope(troot, tsrc, target_class) {
                Some(scope) => missing_member_warnings(members, scope, tsrc),
                None => Seq::empty(),
            },
            None => Seq::empty(),
        }
    }
}

fn warnings_for_members(members: &Vec<String>, scope: &SyntaxNode, source: &str) -> (r: Vec<String>)
    requires
        tree_ok(source@, *scope),
    ensures
        r@.map_values(|s: String| s@) == missing_member_warnings(members@.map_values(|s: String| s@), *scope, source@),
{
    let ghost ms = members@.map_values(|s: String| s@);
    let mut r: Vec<String> = Vec::new();
    let mut i: usize = 0;
    while i < members.len()
        invariant
            i <= members@.len(),
            tree_ok(source@, *scope),
            ms == members@.map_values(|s: String| s@),
            r@.map_values(|s: String| s@) == missing_member_warnings(ms.take(i as int), *scope, source@),
        decreases members@.len() - i,
    {
        assert(ms.take(i + 1).drop_last() =~= ms.take(i as int));
        let m = members[i].as_str();
        if !class_has_member(scope, source, m) {
            let ghost r0 = r@;
            let w = concat_strs(&["self.", m, " referenced but '", m, "' not found in target"]);
            proof {
                reveal_with_fuel(concat_views, 6);
            }
            r.push(w);
            assert(r@.map_values(|s: String| s@) =~= r0.map_values(|s: String| s@).push(w@));
        }
        i += 1;
    }
    assert(ms.take(i as int) =~= ms);
    r
}

/// The optional target of a move, as values.
pub open spec fn target_view(t: Option<(&str, &SyntaxNode)>) -> Option<(Seq<char>, SyntaxNode)> {
    match t {
        Some((s, r)) => Some((s@, *r)),
        None => None,
    }
}

/// Warn about `self.` members of the moved declaration that the target lacks.
pub fn self_member_warnings(
    source: &str,
    decl: &SyntaxNode,
    from_class: bool,
    target_class: Option<&str>,
    target: Option<(&str, &SyntaxNode)>,
) -> (r: Vec<String>)
    requires
        tree_ok(source@, *decl),
        target matches Some((ts, tr)) ==> tree_ok(ts@, *tr),
    ensures
        r@.map_values(|s: String| s@) == self_reference_warnings(
            source@,
            *decl,
            from_class,
            opt_str(target_class),
            target_view(target),
            collect_self_refs_view(*decl, source@),
        ),
{
    let members = collect_self_references(decl, source);
    let ghost mv = members@.map_values(|s: String| s@);
    proof {
        lemma_sorted_unique(mv, collect_self_refs_view(*decl, source@), self_refs(*decl, source@));
    }
    if !(target_class.is_some() || from_class) || members.len() == 0 {
        let r: Vec<String> = Vec::new();
        assert(r@.map_values(|s: String| s@) =~= Seq::<Seq<char>>::empty());
        return r;
    }
    match target {
        Some((ts, troot)) => {
            let scope = match target_class {
                Some(tc) => match find_class_definition(troot, ts, tc) {
                    Some(c) => {
                        let ghost i = choose|i: int|
                            0 <= i < troot.children@.len() && class_index(troot.children@, ts@, tc@)
                                == Some(i) && troot.children@[i] == *c;
                        assert(tree_ok(ts@, troot.children@[i]));
                        c
                    },
                    None => {
                        let r: Vec<String> = Vec::new();
                        assert(r@.map_values(|s: String| s@) =~= Seq::<Seq<char>>::empty());
                        return r;
                    },
                },
                None => troot,
            };
            warnings_for_members(&members, scope, ts)
        },
        None => {
            let r: Vec<String> = Vec::new();
            assert(r@.map_values(|s: String| s@) =~= Seq::<Seq<char>>::empty());
            r
        },
    }
}

/// The members of a subtree's `self.` references, each once, in order.
pub open spec fn collect_self_refs_view(d: SyntaxNode, src: Seq<char>) -> Seq<Seq<char>> {
    sorted_unique(self_refs(d, src).to_set())
}

/// The strictly increasing list of a finite set's texts.
pub open spec fn sorted_unique(s: Set<Seq<char>>) -> Seq<Seq<char>> {
    choose|v: Seq<Seq<char>>| strictly_sorted(v) && v.to_set() == s
}

proof fn lemma_sorted_unique(v: Seq<Seq<char>>, w: Seq<Seq<char>>, all: Seq<Seq<char>>)
    requires
        strictly_sorted(v),
        v.to_set() == all.to_set(),
        w == sorted_unique(all.to_set()),
    ensures
        v == w,
{
    assert(strictly_sorted(w) && w.to_set() == all.to_set());
    lemma_sorted_sets_equal(v, w);
}

/// Two strictly increasing lists with the same elements are equal.
proof fn lemma_sorted_sets_equal(v: Seq<Seq<char>>, w: Seq<Seq<char>>)
    requires
        strictly_sorted(v),
        strictly_sorted(w),
        v.to_set() == w.to_set(),
    ensures
        v == w,
    decreases v.len() + w.len(),
{
    if v.len() == 0 {
        if w.len() > 0 {
            assert(w.to_set().contains(w[0]));
        }
        assert(w =~= v);
    } else if w.len() == 0 {
        assert(v.to_set().contains(v[0]));
    } else {
        let a = v.last();
        let b = w.last();
        assert(v.to_set().contains(a));
        assert(w.to_set().contains(b));
        let ia = choose|i: int| 0 <= i < w.len() && w[i] == a;
        let ib = choose|i: int| 0 <= i < v.len() && v[i] == b;
        lemma_lex_order(a, b, a);
        if a != b {
            if lex_lt(a, b) {
                if ib < v.len() - 1 {
                    assert(lex_lt(v[ib], v[v.len() - 1]));
                    lemma_lex_order(a, b, a);
                }
            } else {
                if ia < w.len() - 1 {
                    assert(lex_lt(w[ia], w[w.len() - 1]));
                    lemma_lex_order(a, b, a);
                }
            }
        }
        assert(a == b);
        let v2 = v.drop_last();
        let w2 = w.drop_last();
        assert(strictly_sorted(v2));
        assert(strictly_sorted(w2));
        assert forall|x: Seq<char>| v2.to_set().contains(x) implies w2.to_set().contains(x) by {
            let k = choose|k: int| 0 <= k < v2.len() && v2[k] == x;
            assert(lex_lt(v[k], v[v.len() - 1]));
            lemma_lex_order(x, a, x);
            assert(w.to_set().contains(x)) by {
                assert(v.to_set().contains(x));
            }
            let j = choose|j: int| 0 <= j < w.len() && w[j] == x;
            assert(j != w.len() - 1);
            assert(w2[j] == x);
        }
        assert forall|x: Seq<char>| w2.to_set().contains(x) implies v2.to_set().contains(x) by {
            let k = choose|k: int| 0 <= k < w2.len() && w2[k] == x;
            assert(lex_lt(w[k], w[w.len() - 1]));
            lemma_lex_order(x, a, x);
            assert(v.to_set().contains(x)) by {
                assert(w.to_set().contains(x));
            }
            let j = choose|j: int| 0 <= j < v.len() && v[j] == x;
            assert(j != v.len() - 1);
            assert(v2[j] == x);
        }
        assert(v2.to_set() =~= w2.to_set());
        lemma_sorted_sets_equal(v2, w2);
        assert(v =~= v2.push(a));
        assert(w =~= w2.push(b));
    }
}

// ── The move ───────────────────────────────────────────────────────────────

/// Why a move is refused.
#[derive(Debug)]
pub enum MoveSymbolError {
    /// The declaration (or its class) was not found.
    Lookup(DeleteError),
    /// The target already declares the name.
    Duplicate(String),
    /// The target class is not in the target file.
    TargetClassMissing(String),
}

impl MoveSymbolError {
    /// The message shown to the user.
    pub fn message(&self) -> (r: String)
        ensures
            match self {
                MoveSymbolError::Lookup(e) => r@ == match e.kind {
                    DeleteErrorKind::NoClass => "no inner class named '"@ + e.class@ + "' found"@,
                    DeleteErrorKind::NotFoundInClass => "no declaration named '"@ + e.name@
                        + "' found in class '"@ + e.class@ + "'"@,
                    DeleteErrorKind::NotFoundAtLineInClass => "no declaration found at line "@ + decimal(
                        e.line as nat,
                    ) + " in class '"@ + e.class@ + "'"@,
                    DeleteErrorKind::NameOrLineRequired => "either --name or --line is required"@,
                    DeleteErrorKind::NotFound => "no declaration named '"@ + e.name@
                        + "' found at top level"@,
                    DeleteErrorKind::NotFoundAtLine => "no declaration found at line "@ + decimal(
                        e.line as nat,
                    ),
                    DeleteErrorKind::NoEnum => "no enum named '"@ + e.class@ + "' found"@,
                    DeleteErrorKind::NotEnum => "'"@ + e.class@ + "' is not an enum"@,
                    DeleteErrorKind::EnumWithoutBody => "enum has no body"@,
                    DeleteErrorKind::NoMember => "no member '"@ + e.name@ + "' in enum '"@ + e.class@
                        + "'"@,
                    DeleteErrorKind::LastMember => "cannot delete the last member of enum '"@
                        + e.class@ + "'"@,
                },
                MoveSymbolError::Duplicate(n) => r@ == "target already contains a declaration named '"@
                    + n@ + "'"@,
                MoveSymbolError::TargetClassMissing(c) => r@ == "target class '"@ + c@
                    + "' not found in target file"@,
            },
    {
        match self {
            MoveSymbolError::Lookup(e) => e.message(),
            MoveSymbolError::Duplicate(n) => {
                let r = concat_strs(&["target already contains a declaration named '", n.as_str(), "'"]);
                proof {
                    reveal_with_fuel(concat_views, 4);
                }
                r
            },
            MoveSymbolError::TargetClassMissing(c) => {
                let r = concat_strs(&["target class '", c.as_str(), "' not found in target file"]);
                proof {
                    reveal_with_fuel(concat_views, 4);
                }
                r
            },
        }
    }
}

/// The target file after the move: the block alone for a new file; inserted
/// after a line feed at the end of the target class; or appended after the
/// spacing its kind wants. `Err` names a target class the file lacks.
pub open spec fn target_after_move(target: Option<(Seq<char>, SyntaxNode)>, target_class: Option<Seq<char>>, kind: Seq<char>, block: Seq<char>) -> Result<Seq<char>, Seq<char>> {
    match target {
        None => Ok(block),
        Some((ts, tr)) => match target_class {
            Some(tc) => match class_index(tr.children@, ts, tc) {
                Some(i) => Ok(
                    span_replaced(
                        ts,
                        tr.children@[i].end_byte as int,
                        tr.children@[i].end_byte as int,
                        "\n"@ + block,
                    ),
                ),
                None => Err(tc),
            },
            None => Ok(ts + spacing(kind, ts) + block),
        },
    }
}

/// The target file's new content.
pub fn moved_target(target: Option<(&str, &SyntaxNode)>, target_class: Option<&str>, decl_kind: &str, block: &str) -> (r: Result<String, MoveSymbolError>)
    requires
        target matches Some((ts, tr)) ==> tree_ok(ts@, *tr),
    ensures
        match r {
            Ok(t) => target_after_move(target_view(target), opt_str(target_class), decl_kind@, block@) == Ok::<Seq<char>, Seq<char>>(t@),
            Err(MoveSymbolError::TargetClassMissing(c)) => target_after_move(target_view(target), opt_str(target_class), decl_kind@, block@) == Err::<Seq<char>, Seq<char>>(c@),
            Err(_) => false,
        },
{
    match target {
        None => Ok(String::from_str(block)),
        Some((ts, troot)) => match target_class {
            Some(tc) => match find_class_definition(troot, ts, tc) {
                Some(c) => {
                    let ghost i = choose|i: int|
                        0 <= i < troot.children@.len() && class_index(troot.children@, ts@, tc@) == Some(i)
                            && troot.children@[i] == *c;
                    assert(tree_ok(ts@, troot.children@[i]));
                    let mut ins = String::from_str("\n");
                    push_str(&mut ins, block);
                    proof {
                        let bs = encode_utf8(ts@);
                        assert(span_ok(ts@, c.end_byte as int, c.end_byte as int));
                    }
                    Ok(replace_span(ts, c.end_byte, c.end_byte, ins.as_str()))
                },
                None => Err(MoveSymbolError::TargetClassMissing(String::from_str(tc))),
            },
            None => {
                let sp = insertion_spacing(decl_kind, ts);
                let mut out = String::from_str(ts);
                push_str(&mut out, sp.as_str());
                push_str(&mut out, block);
                Ok(out)
            },
        },
    }
}

/// A planned move.
pub struct MovePlan {
    /// The declaration's kind as reported.
    pub kind: String,
    /// The declaration's node kind (for spacing in the target).
    pub node_kind: String,
    /// The block as it goes into the target.
    pub block: String,
    /// The source file without the declaration.
    pub new_source: String,
    /// The warnings: references that may need updating, then `self.` members
    /// the target lacks.
    pub warnings: Vec<String>,
}

/// What a move reports and leaves, for the declaration `d`.
pub open spec fn move_of(
    src: Seq<char>,
    d: SyntaxNode,
    name: Seq<char>,
    from_class: bool,
    target_class: Option<Seq<char>>,
    target: Option<(Seq<char>, SyntaxNode)>,
    hits: Seq<ReferenceHit>,
    p: MovePlan,
) -> bool {
    &&& p.kind@ == crate::refactor::kind_name(d.kind@)
    &&& p.node_kind@ == d.kind@
    &&& p.block@ == moved_block(block_of(src, d), move_depth(from_class, target_class is Some))
    &&& p.new_source@ == without_declaration(src, d)
    &&& p.warnings@.map_values(|w: String| w@) == reference_warning(
        external_count(hits, (d.start_row as u32, d.end_row as u32)),
        name,
    ) + self_reference_warnings(src, d, from_class, target_class, target, collect_self_refs_view(d, src))
}

/// The declaration a move names can be re-indented as the move needs.
pub open spec fn move_reindentable(root: SyntaxNode, src: Seq<char>, name: Seq<char>, class: Option<Seq<char>>, target_class: Option<Seq<char>>) -> bool {
    match lookup(root, src, Some(name), None, class) {
        Ok(d) => move_depth(class is Some, target_class is Some) is Some ==> reindent_ok(block_of(src, d)),
        Err(_) => true,
    }
}

/// What planning a move gives: the moved block, the source without it and
/// the warnings; the lookup's error; or the refusal of a duplicate.
pub open spec fn move_outcome(
    src: Seq<char>,
    root: SyntaxNode,
    name: Seq<char>,
    class: Option<Seq<char>>,
    target_class: Option<Seq<char>>,
    target: Option<(Seq<char>, SyntaxNode)>,
    hits: Seq<ReferenceHit>,
    r: Result<MovePlan, MoveSymbolError>,
) -> bool {
    match r {
        Ok(p) => match lookup(root, src, Some(name), None, class) {
            Ok(d) => {
                &&& !(target matches Some((ts, tr)) && target_duplicate(tr, ts, name, target_class))
                &&& move_of(src, d, name, class is Some, target_class, target, hits, p)
            },
            Err(_) => false,
        },
        Err(MoveSymbolError::Lookup(e)) => {
            &&& lookup(root, src, Some(name), None, class) == Err::<SyntaxNode, DeleteErrorKind>(e.kind)
            &&& e.name@ == name
            &&& e.class@ == match class {
                Some(c) => c,
                None => Seq::<char>::empty(),
            }
        },
        Err(MoveSymbolError::Duplicate(n)) => n@ == name && (lookup(root, src, Some(name), None, class) is Ok) && (
        target matches Some((ts, tr)) && target_duplicate(tr, ts, name, target_class)),
        Err(MoveSymbolError::TargetClassMissing(_)) => false,
    }
}

/// Plan moving a declaration (top-level or from an inner class) to another
/// file (top level or into a class): the moved block, the source without it,
/// and the warnings; refused when the target already declares the name.
pub fn plan_move_symbol(
    source: &str,
    root: &SyntaxNode,
    name: &str,
    class: Option<&str>,
    target_class: Option<&str>,
    target: Option<(&str, &SyntaxNode)>,
    hits: &[ReferenceHit],
) -> (r: Result<MovePlan, MoveSymbolError>)
    requires
        tree_ok(source@, *root),
        rows_within(source@, *root),
        target matches Some((ts, tr)) ==> tree_ok(ts@, *tr),
        move_reindentable(*root, source@, name@, opt_str(class), opt_str(target_class)),
    ensures
        move_outcome(source@, *root, name@, opt_str(class), opt_str(target_class), target_view(target), hits@, r),
{
    let d = match find_delete_target(root, source, Some(name), None, class) {
        Ok(d) => d,
        Err(e) => {
            return Err(MoveSymbolError::Lookup(e));
        },
    };
    let kind = String::from_str(crate::refactor::declaration_kind_str(d.kind.as_str()));
    let raw = declaration_block(source, d);
    let block = reindent_block(raw.as_str(), class.is_some(), target_class.is_some());
    match target {
        Some((ts, troot)) => {
            if has_duplicate(troot, ts, name, target_class) {
                return Err(MoveSymbolError::Duplicate(String::from_str(name)));
            }
        },
        None => {},
    }
    let mut warnings = references_warning(hits, (d.start_row as u32, d.end_row as u32), name);
    let selfw = self_member_warnings(source, d, class.is_some(), target_class, target);
    let ghost w0 = warnings@;
    let mut k: usize = 0;
    while k < selfw.len()
        invariant
            k <= selfw@.len(),
            warnings@.map_values(|w: String| w@) == w0.map_values(|w: String| w@) + selfw@.map_values(|w: String| w@).take(k as int),
        decreases selfw@.len() - k,
    {
        let ghost before = warnings@;
        let w = String::from_str(selfw[k].as_str());
        warnings.push(w);
        assert(warnings@.map_values(|w: String| w@) =~= before.map_values(|w: String| w@).push(selfw@[k as int]@));
        assert(selfw@.map_values(|w: String| w@).take(k + 1) =~= selfw@.map_values(|w: String| w@).take(k as int).push(selfw@[k as int]@));
        k += 1;
    }
    assert(selfw@.map_values(|w: String| w@).take(k as int) =~= selfw@.map_values(|w: String| w@));
    let new_source = remove_declaration(source, d);
    Ok(
        MovePlan {
            kind,
            node_kind: String::from_str(d.kind.as_str()),
            block,
            new_source,
            warnings,
        },
    )
}

/// The tree of an optional target text, when it has one that fits.
pub open spec fn fitting_target(t: Option<&str>) -> Option<(Seq<char>, SyntaxNode)> {
    match t {
        Some(ts) => match fitting_tree(ts@) {
            Some(tr) => Some((ts@, tr)),
            None => None,
        },
        None => None,
    }
}

/// Whether the declaration to move can be re-indented for its new depth:
/// see `move_reindentable`.
pub fn can_move_reindent(source: &str, root: &SyntaxNode, name: &str, class: Option<&str>, target_class: Option<&str>) -> (r: bool)
    requires
        tree_ok(source@, *root),
        rows_within(source@, *root),
    ensures
        r == move_reindentable(*root, source@, name@, opt_str(class), opt_str(target_class)),
{
    match find_delete_target(root, source, Some(name), None, class) {
        Err(_) => true,
        Ok(d) => {
            if class.is_some() != target_class.is_some() {
                let block = declaration_block(source, d);
                crate::refactor::can_re_indent(block.as_str())
            } else {
                true
            }
        },
    }
}

/// Plan a move in a source text, parsing it and the target text first.
/// `None` when the parser gives no tree that fits one of the texts, or the
/// declaration cannot be re-indented for its new depth.
pub fn plan_move_symbol_in(
    source: &str,
    name: &str,
    class: Option<&str>,
    target_class: Option<&str>,
    target_source: Option<&str>,
    hits: &[ReferenceHit],
) -> (r: Option<Result<MovePlan, MoveSymbolError>>)
    ensures
        r is None <==> (fitting_tree(source@) is None || (target_source is Some && fitting_target(target_source) is None)
            || !move_reindentable(fitting_tree(source@)->0, source@, name@, opt_str(class), opt_str(target_class))),
        r matches Some(x) ==> move_outcome(
            source@,
            fitting_tree(source@)->0,
            name@,
            opt_str(class),
            opt_str(target_class),
            fitting_target(target_source),
            hits@,
            x,
        ),
{
    let root = match parse_fitting(source) {
        Some(t) => t,
        None => {
            return None;
        },
    };
    let troot = match target_source {
        Some(ts) => match parse_fitting(ts) {
            Some(t) => Some(t),
            None => {
                return None;
            },
        },
        None => None,
    };
    if !can_move_reindent(source, &root, name, class, target_class) {
        return None;
    }
    let target = match (target_source, &troot) {
        (Some(ts), Some(t)) => Some((ts, t)),
        _ => None,
    };
    assert(target_view(target) == fitting_target(target_source));
    Some(plan_move_symbol(source, &root, name, class, target_class, target, hits))
}

/// The target file's new content, parsing the target text first: `None`
/// when the parser gives no tree that fits it.
pub fn moved_target_in(target_source: Option<&str>, target_class: Option<&str>, decl_kind: &str, block: &str) -> (r: Option<Result<String, MoveSymbolError>>)
    ensures
        r is None <==> (target_source is Some && fitting_target(target_source) is None),
        r matches Some(x) ==> match x {
            Ok(t) => target_after_move(fitting_target(target_source), opt_str(target_class), decl_kind@, block@) == Ok::<Seq<char>, Seq<char>>(t@),
            Err(MoveSymbolError::TargetClassMissing(c)) => target_after_move(fitting_target(target_source), opt_str(target_class), decl_kind@, block@)
                == Err::<Seq<char>, Seq<char>>(c@),
            Err(_) => false,
        },
{
    match target_source {
        Some(ts) => match parse_fitting(ts) {
            Some(t) => Some(moved_target(Some((ts, &t)), target_class, decl_kind, block)),
            None => None,
        },
        None => Some(moved_target(None, target_class, decl_kind, block)),
    }
}

/// A caller's text after a move, when the preload on its 1-based line
/// `line` names the old path: every line ended by a line feed, the changed
/// preload added after that line. `None` when there is no such line or the
/// preload does not change.
pub open spec fn caller_after_move(content: Seq<char>, line: int, old_res: Seq<char>, new_res: Seq<char>) -> Option<(Seq<char>, Seq<char>)> {
    let ls = lines(content);
    if line < 1 || line > ls.len() {
        None
    } else {
        let added = crate::refactor::move_file::replaced_from(ls[line - 1], old_res, new_res, 0);
        if added == ls[line - 1] {
            None
        } else {
            let kept = ls.take(line).push(added).add(ls.skip(line));
            Some((join(kept, seq!['\n']) + seq!['\n'], added))
        }
    }
}

/// Add, after the preload on the 1-based line `line` of a caller, the same
/// preload of the moved symbol's new file: the new text and the added line.
#[verifier::spinoff_prover]
#[verifier::rlimit(60)]
pub fn update_caller_after_move(content: &str, line: u32, old_res: &str, new_res: &str) -> (r: Option<(String, String)>)
    requires
        old_res@.len() > 0,
    ensures
        match r {
            Some((t, a)) => caller_after_move(content@, line as int, old_res@, new_res@) == Some((t@, a@)),
            None => caller_after_move(content@, line as int, old_res@, new_res@) is None,
        },
{
    let cs = chars_of(content);
    let ls = lines_of(cs.as_slice());
    let ghost lv = lines(content@);
    assert(ls@.map_values(|v: Vec<char>| v@) =~= lv);
    if line < 1 || line as usize > ls.len() {
        return None;
    }
    let idx = (line - 1) as usize;
    let old_line = string_of(ls[idx].as_slice());
    let added = crate::refactor::move_file::replace_all(old_line.as_str(), old_res, new_res);
    if crate::refactor::str_eq(added.as_str(), old_line.as_str()) {
        return None;
    }
    let mut kept: Vec<Vec<char>> = Vec::new();
    let mut i: usize = 0;
    while i < ls.len()
        invariant
            i <= ls@.len(),
            idx < ls@.len(),
            ls@.map_values(|v: Vec<char>| v@) == lv,
            kept@.map_values(|v: Vec<char>| v@) == (if i <= idx {
                lv.take(i as int)
            } else {
                lv.take(idx + 1).push(added@).add(lv.subrange(idx + 1, i as int))
            }),
        decreases ls@.len() - i,
    {
        let ghost before = kept@.map_values(|v: Vec<char>| v@);
        let line_i = string_of(ls[i].as_slice());
        kept.push(chars_of(line_i.as_str()));
        assert(ls@.map_values(|v: Vec<char>| v@)[i as int] == lv[i as int]);
        assert(kept@.map_values(|v: Vec<char>| v@) =~= before.push(lv[i as int]));
        if i == idx {
            let ghost mid = kept@.map_values(|v: Vec<char>| v@);
            kept.push(chars_of(added.as_str()));
            assert(kept@.map_values(|v: Vec<char>| v@) =~= mid.push(added@));
            assert(lv.take(i as int).push(lv[i as int]) =~= lv.take(idx + 1));
            assert(lv.subrange(idx + 1, idx + 1) =~= Seq::<Seq<char>>::empty());
            assert(kept@.map_values(|v: Vec<char>| v@) =~= lv.take(idx + 1).push(added@).add(lv.subrange(idx + 1, idx + 1)));
        } else if i < idx {
            assert(lv.take(i as int).push(lv[i as int]) =~= lv.take(i + 1));
        } else {
            assert(lv.subrange(idx + 1, i as int).push(lv[i as int]) =~= lv.subrange(idx + 1, i + 1));
            assert(kept@.map_values(|v: Vec<char>| v@) =~= lv.take(idx + 1).push(added@).add(lv.subrange(idx + 1, i + 1)));
        }
        i += 1;
    }
    assert(lv.subrange(idx + 1, lv.len() as int) =~= lv.skip(idx + 1));
    let nl = ['\n'];
    let mut text = join_lines(&kept, &nl);
    text.push('\n');
    assert(nl@ =~= seq!['\n']);
    Some((string_of(text.as_slice()), added))
}

} // verus!
