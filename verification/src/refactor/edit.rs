//! AST-safe editing primitives: replace a body, insert, replace a symbol, edit a range.
use vstd::prelude::*;

use vstd::string::StringSliceAdditionalSpecFns;
use vstd::utf8::{encode_utf8, encode_utf8_valid_utf8, is_char_boundary_start_end_of_seq};

use crate::refactor::convert_signal::with_final_nl;
use crate::refactor::delete_symbol::{
    DeleteErrorKind, find_delete_target, lookup, opt_str, rows_within,
};
use crate::refactor::{
    declaration_full_range, full_range, indent_w, kind_name, lemma_nl_starts,
    lemma_nl_starts_boundary, lemma_text_between_width, lemma_wlen_prefix, line_end, line_starts,
    nl_starts, re_indent_to_depth, reindent_ok, reindented, width_of_prefix, wlen,
};
use crate::syntax::{
    SyntaxNode, child_by_field_name, field_child, kind_is, named_child, named_child_at, slice_str,
    span_ok, text_between, tree_ok,
};
use crate::text::{
    chars_of, concat_strs, concat_views, decimal, decimal_string, ends_with, extend, is_blank,
    lead_ws, lines, lines_of, push_str, repeat, seq_eq, starts_with, string_of, trim, trim_end,
    trim_start, trimmed, trimmed_end,
};

use crate::parse::{fitting_tree, parse_fitting};

verus! {

/// What an editing primitive reports.
pub struct EditOutput {
    pub file: String,
    pub operation: &'static str,
    pub symbol: Option<String>,
    pub applied: bool,
    pub lines_changed: u32,
    pub warnings: Vec<String>,
}

/// Line `i`, or nothing past the end.
pub open spec fn line_at_opt(ls: Seq<Seq<char>>, i: int) -> Option<Seq<char>> {
    if 0 <= i < ls.len() {
        Some(ls[i])
    } else {
        None
    }
}

/// Number of positions below `n` where the two line lists differ.
pub open spec fn diff_count(a: Seq<Seq<char>>, b: Seq<Seq<char>>, n: nat) -> nat
    decreases n,
{
    if n == 0 {
        0
    } else {
        diff_count(a, b, (n - 1) as nat) + if line_at_opt(a, n - 1) != line_at_opt(b, n - 1) {
            1nat
        } else {
            0nat
        }
    }
}

/// The number of changed lines between two texts, comparing line by line.
pub open spec fn changed_lines(old: Seq<char>, new: Seq<char>) -> nat {
    let a = lines(old);
    let b = lines(new);
    diff_count(a, b, if a.len() >= b.len() { a.len() } else { b.len() })
}

proof fn lemma_diff_count_le(a: Seq<Seq<char>>, b: Seq<Seq<char>>, n: nat)
    ensures
        diff_count(a, b, n) <= n,
    decreases n,
{
    if n > 0 {
        lemma_diff_count_le(a, b, (n - 1) as nat);
    }
}

proof fn lemma_diff_count_mono(a: Seq<Seq<char>>, b: Seq<Seq<char>>, m: nat, n: nat)
    requires
        m <= n,
    ensures
        diff_count(a, b, m) <= diff_count(a, b, n),
    decreases n,
{
    if m < n {
        lemma_diff_count_mono(a, b, m, (n - 1) as nat);
    }
}

/// Count the lines that differ between two texts, position by position;
/// each line that only the longer text has counts as changed.
pub fn diff_line_count(old: &str, new: &str) -> (r: u32)
    requires
        changed_lines(old@, new@) <= u32::MAX,
    ensures
        r == changed_lines(old@, new@),
{
    let ov = chars_of(old);
    let nv = chars_of(new);
    let old_lines = lines_of(&ov);
    let new_lines = lines_of(&nv);
    let ghost a = lines(old@);
    let ghost b = lines(new@);
    let max = if old_lines.len() >= new_lines.len() {
        old_lines.len()
    } else {
        new_lines.len()
    };
    let empty: Vec<char> = Vec::new();
    let mut changed: u32 = 0;
    let mut i: usize = 0;
    while i < max
        invariant
            i <= max,
            max == if a.len() >= b.len() { a.len() } else { b.len() },
            old_lines@.len() == a.len(),
            new_lines@.len() == b.len(),
            forall|j: int| 0 <= j < old_lines@.len() ==> (#[trigger] old_lines@[j])@ == a[j],
            forall|j: int| 0 <= j < new_lines@.len() ==> (#[trigger] new_lines@[j])@ == b[j],
            a == lines(old@),
            b == lines(new@),
            empty@ == Seq::<char>::empty(),
            changed == diff_count(a, b, i as nat),
            diff_count(a, b, max as nat) <= u32::MAX,
        decreases max - i,
    {
        let differ = if i < old_lines.len() && i < new_lines.len() {
            !seq_eq(&old_lines[i], &new_lines[i])
        } else {
            true
        };
        proof {
            lemma_diff_count_mono(a, b, (i + 1) as nat, max as nat);
        }
        if differ {
            changed += 1;
        }
        i += 1;
    }
    changed
}

// ── Finding the symbol ─────────────────────────────────────────────────────

/// Why an edit is refused.
#[derive(Debug)]
pub enum EditError {
    /// No inner class has the name.
    ClassNotFound(String),
    /// The file declares nothing with the name at top level.
    SymbolNotFound(String),
    /// The class declares nothing with the name.
    SymbolNotFoundInClass(String, String),
    /// The symbol is no function: its name and kind.
    NotAFunction(String, String),
    /// The new body starts with a function signature (its first 60 characters).
    SignatureInBody(String),
    /// The function has no body.
    NoBody(String),
    /// The function's body has no statement.
    EmptyBody(String),
    /// A line number is 0.
    ZeroLine,
    /// The range starts after it ends.
    StartAfterEnd(usize, usize),
    /// The range starts past the file's last line: the start and the line count.
    StartBeyondEnd(usize, usize),
}

impl EditError {
    /// The message shown to the user; `file` names the edited file.
    pub fn message(&self, file: &str) -> (r: String)
        ensures
            r@ == match self {
                EditError::ClassNotFound(c) => "class '"@ + c@ + "' not found in "@ + file@,
                EditError::SymbolNotFound(n) => "symbol '"@ + n@ + "' not found in "@ + file@,
                EditError::SymbolNotFoundInClass(n, c) => "symbol '"@ + n@ + "' not found in class '"@ + c@
                    + "'"@,
                EditError::NotAFunction(n, k) => "'"@ + n@ + "' is a "@ + k@
                    + ", not a function \u{2014} replace-body only works on functions"@,
                EditError::SignatureInBody(l) => "input appears to contain a function signature (`"@ + l@
                    + "`); replace-body expects only the body (indented statements), not the signature"@,
                EditError::NoBody(n) => "function '"@ + n@ + "' has no body"@,
                EditError::EmptyBody(n) => "function '"@ + n@ + "' has an empty body"@,
                EditError::ZeroLine => "line numbers are 1-based"@,
                EditError::StartAfterEnd(a, b) => "start-line ("@ + decimal(*a as nat) + ") must be <= end-line ("@
                    + decimal(*b as nat) + ")"@,
                EditError::StartBeyondEnd(a, t) => "start-line "@ + decimal(*a as nat) + " exceeds file length ("@
                    + decimal(*t as nat) + " lines)"@,
            },
    {
        let r = match self {
            EditError::ClassNotFound(c) => concat_strs(&["class '", c.as_str(), "' not found in ", file]),
            EditError::SymbolNotFound(n) => concat_strs(&["symbol '", n.as_str(), "' not found in ", file]),
            EditError::SymbolNotFoundInClass(n, c) => concat_strs(
                &["symbol '", n.as_str(), "' not found in class '", c.as_str(), "'"],
            ),
            EditError::NotAFunction(n, k) => concat_strs(
                &[
                    "'",
                    n.as_str(),
                    "' is a ",
                    k.as_str(),
                    ", not a function \u{2014} replace-body only works on functions",
                ],
            ),
            EditError::SignatureInBody(l) => concat_strs(
                &[
                    "input appears to contain a function signature (`",
                    l.as_str(),
                    "`); replace-body expects only the body (indented statements), not the signature",
                ],
            ),
            EditError::NoBody(n) => concat_strs(&["function '", n.as_str(), "' has no body"]),
            EditError::EmptyBody(n) => concat_strs(&["function '", n.as_str(), "' has an empty body"]),
            EditError::ZeroLine => concat_strs(&["line numbers are 1-based"]),
            EditError::StartAfterEnd(a, b) => {
                let x = decimal_string(*a);
                let y = decimal_string(*b);
                concat_strs(&["start-line (", x.as_str(), ") must be <= end-line (", y.as_str(), ")"])
            },
            EditError::StartBeyondEnd(a, t) => {
                let x = decimal_string(*a);
                let y = decimal_string(*t);
                concat_strs(&["start-line ", x.as_str(), " exceeds file length (", y.as_str(), " lines)"])
            },
        };
        proof {
            reveal_with_fuel(concat_views, 6);
        }
        r
    }
}

/// The declaration an edit names, by name at top level or in an inner
/// class, or the error it gets.
pub open spec fn edit_target_error(k: DeleteErrorKind) -> nat {
    match k {
        DeleteErrorKind::NoClass => 0,
        DeleteErrorKind::NotFoundInClass => 1,
        _ => 2,
    }
}

fn find_edit_target<'a>(root: &'a SyntaxNode, source: &str, name: &str, class: Option<&str>) -> (r: Result<&'a SyntaxNode, EditError>)
    requires
        tree_ok(source@, *root),
        rows_within(source@, *root),
    ensures
        match r {
            Ok(d) => lookup(*root, source@, Some(name@), None, opt_str(class)) == Ok::<SyntaxNode, DeleteErrorKind>(*d)
                && tree_ok(source@, *d) && rows_within(source@, *d),
            Err(EditError::ClassNotFound(c)) => (class matches Some(k) && c@ == k@)
                && lookup(*root, source@, Some(name@), None, opt_str(class)) == Err::<SyntaxNode, DeleteErrorKind>(DeleteErrorKind::NoClass),
            Err(EditError::SymbolNotFoundInClass(n, c)) => n@ == name@ && (class matches Some(k) && c@ == k@)
                && lookup(*root, source@, Some(name@), None, opt_str(class)) == Err::<SyntaxNode, DeleteErrorKind>(DeleteErrorKind::NotFoundInClass),
            Err(EditError::SymbolNotFound(n)) => n@ == name@
                && lookup(*root, source@, Some(name@), None, opt_str(class)) == Err::<SyntaxNode, DeleteErrorKind>(DeleteErrorKind::NotFound),
            Err(_) => false,
        },
{
    match find_delete_target(root, source, Some(name), None, class) {
        Ok(d) => Ok(d),
        Err(e) => match e.kind {
            DeleteErrorKind::NoClass => Err(EditError::ClassNotFound(e.class)),
            DeleteErrorKind::NotFoundInClass => Err(EditError::SymbolNotFoundInClass(e.name, e.class)),
            _ => Err(EditError::SymbolNotFound(e.name)),
        },
    }
}

/// The message-free outcome of a lookup, for contracts.
pub open spec fn lookup_ok(root: SyntaxNode, src: Seq<char>, name: Seq<char>, class: Option<Seq<char>>) -> Option<SyntaxNode> {
    match lookup(root, src, Some(name), None, class) {
        Ok(d) => Some(d),
        Err(_) => None,
    }
}

// ── replace-body ───────────────────────────────────────────────────────────

/// The first non-blank line, trimmed; empty when there is none.
pub open spec fn first_content_line(t: Seq<char>) -> Seq<char> {
    first_content_from(lines(t), 0)
}

/// The first non-blank line from index `i` on, trimmed.
pub open spec fn first_content_from(ls: Seq<Seq<char>>, i: int) -> Seq<char>
    decreases ls.len() - i,
{
    if i < 0 || i >= ls.len() {
        Seq::empty()
    } else if !is_blank(ls[i]) {
        trim(ls[i])
    } else {
        first_content_from(ls, i + 1)
    }
}

/// The text starts like a function signature.
pub open spec fn signature_like(l: Seq<char>) -> bool {
    starts_with(l, "func "@) || starts_with(l, "static func "@)
}

/// The tab depth of a statement's line: its indentation width in bytes,
/// counted as tabs when the line starts with a tab, else in fours.
pub open spec fn tab_depth(src: Seq<char>, row: int) -> nat {
    let b = encode_utf8(src);
    let raw = text_between(src, nl_starts(b)[row] as int, line_end(b, row));
    let l = crate::text::trim_matches_end(raw, '\n');
    if l.len() > 0 && l[0] == '\t' {
        indent_w(l)
    } else {
        indent_w(l) / 4
    }
}

/// The new text of a function whose body is replaced: the source up to the
/// first statement's line, the new body re-indented to that depth and ended
/// with a line feed, then the source after the old body.
pub open spec fn body_replaced(src: Seq<char>, body: SyntaxNode, first: SyntaxNode, new_body: Seq<char>) -> Seq<char> {
    let b = encode_utf8(src);
    let re = reindented(trim_end(new_body), repeat(seq!['\t'], tab_depth(src, first.start_row as int)));
    text_between(src, 0, nl_starts(b)[first.start_row as int] as int) + with_final_nl(re) + text_between(
        src,
        body.end_byte as int,
        b.len() as int,
    )
}

fn stmt_tab_depth(source: &str, row: usize) -> (r: usize)
    requires
        row < nl_starts(source.spec_bytes()).len(),
    ensures
        r == tab_depth(source@, row as int),
{
    let starts = line_starts(source);
    let n = source.as_bytes().len();
    proof {
        let b = source.spec_bytes();
        lemma_nl_starts(b);
        lemma_nl_starts_boundary(source@);
        encode_utf8_valid_utf8(source@);
        is_char_boundary_start_end_of_seq(b);
        if row + 1 < nl_starts(b).len() {
            assert(span_ok(source@, nl_starts(b)[row + 1] as int, b.len() as int));
        }
    }
    let ls = starts[row];
    let le = if row < starts.len() - 1 {
        starts[row + 1]
    } else {
        n
    };
    let raw = slice_str(source, ls, le);
    let rc = chars_of(raw.as_str());
    let l = crate::text::trimmed_end_char(&rc, '\n');
    let k = crate::text::lead_ws_len(&l);
    proof {
        crate::text::lemma_lead_ws_bound(l@);
    }
    let w = width_of_prefix(&l, k);
    proof {
        lemma_text_between_width(source@, ls as int, le as int);
        lemma_wlen_prefix(rc@, l@.len() as int);
        assert(rc@.take(l@.len() as int) =~= l@);
        lemma_wlen_prefix(l@, k as int);
    }
    let wu = w as usize;
    if l.len() > 0 && l[0] == '\t' {
        wu
    } else {
        wu / 4
    }
}

/// A function's body, replaced.
pub open spec fn is_function(d: SyntaxNode) -> bool {
    d.kind@ == "function_definition"@ || d.kind@ == "constructor_definition"@
}

/// At most the first 60 characters.
pub open spec fn first_sixty(l: Seq<char>) -> Seq<char> {
    if l.len() <= 60 {
        l
    } else {
        l.take(60)
    }
}

fn first_content(t: &str) -> (r: Vec<char>)
    ensures
        r@ == first_content_line(t@),
{
    let v = chars_of(t);
    let ls = lines_of(&v);
    let mut i: usize = 0;
    while i < ls.len()
        invariant
            i <= ls@.len(),
            ls@.len() == lines(t@).len(),
            forall|j: int| 0 <= j < ls@.len() ==> (#[trigger] ls@[j])@ == lines(t@)[j],
            first_content_line(t@) == first_content_from(lines(t@), i as int),
        decreases ls@.len() - i,
    {
        if !crate::text::blank(&ls[i]) {
            return trimmed(&ls[i]);
        }
        i += 1;
    }
    Vec::new()
}

/// What replacing a function's body gives: see `replace_body`.
pub open spec fn body_outcome(src: Seq<char>, root: SyntaxNode, name: Seq<char>, class: Option<Seq<char>>, new_body: Seq<char>, r: Result<String, EditError>) -> bool {
    match r {
        Ok(t) => match lookup_ok(root, src, name, class) {
            Some(d) => is_function(d) && !signature_like(first_content_line(new_body)) && (field_child(
                d,
                "body"@,
            ) matches Some(b) && (named_child(b, 0) matches Some(f) && t@ == body_replaced(
                src,
                b,
                f,
                new_body,
            ))),
            None => false,
        },
        Err(EditError::NotAFunction(n, k)) => n@ == name && (lookup_ok(root, src, name, class) matches Some(d)
            && !is_function(d) && k@ == kind_name(d.kind@)),
        Err(EditError::SignatureInBody(l)) => (lookup_ok(root, src, name, class) matches Some(d)
            && is_function(d)) && signature_like(first_content_line(new_body)) && l@ == first_sixty(
            first_content_line(new_body),
        ),
        Err(EditError::NoBody(n)) => n@ == name && (lookup_ok(root, src, name, class) matches Some(d)
            && is_function(d) && field_child(d, "body"@) is None) && !signature_like(first_content_line(new_body)),
        Err(EditError::EmptyBody(n)) => n@ == name && (lookup_ok(root, src, name, class) matches Some(d)
            && is_function(d) && (field_child(d, "body"@) matches Some(b) && named_child(b, 0) is None))
            && !signature_like(first_content_line(new_body)),
        Err(EditError::ClassNotFound(_)) => lookup(root, src, Some(name), None, class) == Err::<SyntaxNode, DeleteErrorKind>(DeleteErrorKind::NoClass),
        Err(EditError::SymbolNotFoundInClass(_, _)) => lookup(root, src, Some(name), None, class) == Err::<SyntaxNode, DeleteErrorKind>(DeleteErrorKind::NotFoundInClass),
        Err(EditError::SymbolNotFound(_)) => lookup(root, src, Some(name), None, class) == Err::<SyntaxNode, DeleteErrorKind>(DeleteErrorKind::NotFound),
        Err(_) => false,
    }
}

/// Replace the body of a function (top-level or in an inner class): the new
/// statements are re-indented to the depth of the old first statement.
pub fn replace_body(source: &str, root: &SyntaxNode, name: &str, class: Option<&str>, new_body: &str) -> (r: Result<String, EditError>)
    requires
        tree_ok(source@, *root),
        rows_within(source@, *root),
        reindent_ok(trim_end(new_body@)),
    ensures
        body_outcome(source@, *root, name@, opt_str(class), new_body@, r),
{
    let d = match find_edit_target(root, source, name, class) {
        Ok(d) => d,
        Err(e) => {
            return Err(e);
        },
    };
    if !(kind_is(d, "function_definition") || kind_is(d, "constructor_definition")) {
        let k = crate::refactor::declaration_kind_str(d.kind.as_str());
        return Err(EditError::NotAFunction(String::from_str(name), String::from_str(k)));
    }
    let first = first_content(new_body);
    let f1 = chars_of("func ");
    let f2 = chars_of("static func ");
    if crate::text::has_prefix(&first, &f1) || crate::text::has_prefix(&first, &f2) {
        let cut = if first.len() <= 60 {
            first.len()
        } else {
            60
        };
        let head = crate::text::slice_of(&first, 0, cut);
        assert(head@ =~= first_sixty(first@));
        return Err(EditError::SignatureInBody(string_of(&head)));
    }
    let body = match child_by_field_name(d, "body") {
        Some(b) => b,
        None => {
            return Err(EditError::NoBody(String::from_str(name)));
        },
    };
    let ghost bi = choose|i: int| 0 <= i < d.children@.len() && d.children@[i] == *body;
    assert(tree_ok(source@, d.children@[bi]) && rows_within(source@, d.children@[bi]));
    let fst = match named_child_at(body, 0) {
        Some(f) => f,
        None => {
            return Err(EditError::EmptyBody(String::from_str(name)));
        },
    };
    proof {
        crate::syntax::lemma_named_child_in(*body, 0);
        let fi = choose|i: int| 0 <= i < body.children@.len() && body.children@[i] == *fst;
        assert(rows_within(source@, body.children@[fi]));
    }
    let tabs = stmt_tab_depth(source, fst.start_row);
    let nb = chars_of(new_body);
    let tb = trimmed_end(&nb);
    let tbs = string_of(&tb);
    let re = re_indent_to_depth(tbs.as_str(), tabs);
    let mut rec = chars_of(re.as_str());
    crate::refactor::convert_signal::end_with_nl(&mut rec);
    let starts = line_starts(source);
    let n = source.as_bytes().len();
    proof {
        let b = source.spec_bytes();
        lemma_nl_starts(b);
        lemma_nl_starts_boundary(source@);
        encode_utf8_valid_utf8(source@);
        is_char_boundary_start_end_of_seq(b);
        assert(span_ok(source@, nl_starts(b)[fst.start_row as int] as int, b.len() as int));
    }
    let line_start = starts[fst.start_row];
    let head = slice_str(source, 0, line_start);
    let tail = slice_str(source, body.end_byte, n);
    let mut out = head;
    push_str(&mut out, string_of(&rec).as_str());
    push_str(&mut out, tail.as_str());
    Ok(out)
}

// ── insert ─────────────────────────────────────────────────────────────────

/// The source with `content` inserted before or after a declaration's full
/// range (its comments and annotations included): after it, on a line of its
/// own; before it, ending with a line feed.
pub open spec fn inserted(src: Seq<char>, d: SyntaxNode, after: bool, content: Seq<char>) -> Seq<char> {
    let b = encode_utf8(src);
    let p = if after {
        full_range(src, d).1
    } else {
        full_range(src, d).0
    };
    let head = text_between(src, 0, p as int);
    head + insertion_text(head, after, content) + text_between(src, p as int, b.len() as int)
}

fn cut_at_boundary(source: &str, p: usize) -> (r: (String, String))
    requires
        span_ok(source@, p as int, encode_utf8(source@).len() as int),
    ensures
        r.0@ == text_between(source@, 0, p as int),
        r.1@ == text_between(source@, p as int, encode_utf8(source@).len() as int),
{
    let n = source.as_bytes().len();
    proof {
        encode_utf8_valid_utf8(source@);
        is_char_boundary_start_end_of_seq(source.spec_bytes());
    }
    (slice_str(source, 0, p), slice_str(source, p, n))
}

/// What goes between the head and the rest of the source.
pub open spec fn insertion_text(head: Seq<char>, after: bool, content: Seq<char>) -> Seq<char> {
    if after {
        (if ends_with(head, "\n"@) {
            Seq::empty()
        } else {
            "\n"@
        }) + trim_end(content) + "\n"@
    } else {
        with_final_nl(trim_end(content))
    }
}

fn insertion_chars(head: &Vec<char>, after: bool, content: &str) -> (r: Vec<char>)
    ensures
        r@ == insertion_text(head@, after, content@),
{
    let cc = chars_of(content);
    let t = trimmed_end(&cc);
    proof {
        reveal_strlit("\n");
    }
    if after {
        let nl = ['\n'];
        assert(nl@ =~= "\n"@);
        let mut out: Vec<char> = Vec::new();
        if !crate::text::has_suffix(head, &nl) {
            out.push('\n');
        }
        extend(&mut out, &t);
        out.push('\n');
        assert(out@ =~= insertion_text(head@, after, content@));
        out
    } else {
        let mut tt = t;
        crate::refactor::convert_signal::end_with_nl(&mut tt);
        tt
    }
}

/// What inserting next to a declaration gives: see `insert`.
pub open spec fn insert_outcome(src: Seq<char>, root: SyntaxNode, anchor_name: Seq<char>, after: bool, class: Option<Seq<char>>, content: Seq<char>, r: Result<String, EditError>) -> bool {
    match r {
        Ok(t) => match lookup_ok(root, src, anchor_name, class) {
            Some(d) => t@ == inserted(src, d, after, content),
            None => false,
        },
        Err(EditError::ClassNotFound(_)) => lookup(root, src, Some(anchor_name), None, class) == Err::<SyntaxNode, DeleteErrorKind>(DeleteErrorKind::NoClass),
        Err(EditError::SymbolNotFoundInClass(_, _)) => lookup(root, src, Some(anchor_name), None, class) == Err::<SyntaxNode, DeleteErrorKind>(DeleteErrorKind::NotFoundInClass),
        Err(EditError::SymbolNotFound(_)) => lookup(root, src, Some(anchor_name), None, class) == Err::<SyntaxNode, DeleteErrorKind>(DeleteErrorKind::NotFound),
        Err(_) => false,
    }
}

/// Insert content before or after a declaration (top-level or in an inner class).
pub fn insert(source: &str, root: &SyntaxNode, anchor_name: &str, after: bool, class: Option<&str>, content: &str) -> (r: Result<String, EditError>)
    requires
        tree_ok(source@, *root),
        rows_within(source@, *root),
    ensures
        insert_outcome(source@, *root, anchor_name@, after, opt_str(class), content@, r),
{
    let d = match find_edit_target(root, source, anchor_name, class) {
        Ok(d) => d,
        Err(e) => {
            return Err(e);
        },
    };
    let (a, b) = declaration_full_range(d, source);
    let _n = source.as_bytes().len();
    proof {
        crate::refactor::delete_symbol::lemma_full_range_spans(source@, *d);
    }
    let p = if after {
        b
    } else {
        a
    };
    let (head, tail) = cut_at_boundary(source, p);
    let hc = chars_of(head.as_str());
    let mid = insertion_chars(&hc, after, content);
    let mut out = head;
    push_str(&mut out, string_of(&mid).as_str());
    push_str(&mut out, tail.as_str());
    Ok(out)
}

// ── replace-symbol ─────────────────────────────────────────────────────────

/// Tabs among the characters.
pub open spec fn tab_count(s: Seq<char>) -> nat
    decreases s.len(),
{
    if s.len() == 0 {
        0
    } else {
        tab_count(s.drop_last()) + if s.last() == '\t' {
            1nat
        } else {
            0nat
        }
    }
}

/// The range a replaced symbol covers: the whole file for `class_name`,
/// else the declaration's full range.
pub open spec fn symbol_range(src: Seq<char>, d: SyntaxNode) -> (int, int) {
    if d.kind@ == "class_name_statement"@ {
        (0, encode_utf8(src).len() as int)
    } else {
        (full_range(src, d).0 as int, full_range(src, d).1 as int)
    }
}

/// The source with a declaration replaced by new content, re-indented to the
/// declaration's depth (its line's tabs before it) and ended with a line feed.
pub open spec fn symbol_replaced(src: Seq<char>, d: SyntaxNode, new_content: Seq<char>) -> Seq<char> {
    let b = encode_utf8(src);
    let tabs = tab_count(text_between(src, nl_starts(b)[d.start_row as int] as int, d.start_byte as int));
    let re = reindented(trim_end(new_content), repeat(seq!['\t'], tabs));
    let (a, e) = symbol_range(src, d);
    text_between(src, 0, a) + with_final_nl(re) + text_between(src, e, b.len() as int)
}

fn count_tabs(v: &Vec<char>) -> (r: usize)
    ensures
        r == tab_count(v@),
{
    let mut n: usize = 0;
    let mut i: usize = 0;
    while i < v.len()
        invariant
            i <= v@.len(),
            n == tab_count(v@.take(i as int)),
            n <= i,
        decreases v@.len() - i,
    {
        assert(v@.take(i + 1).drop_last() =~= v@.take(i as int));
        if v[i] == '\t' {
            n += 1;
        }
        i += 1;
    }
    assert(v@.take(i as int) =~= v@);
    n
}

/// What replacing a declaration gives: see `replace_symbol`.
pub open spec fn symbol_outcome(src: Seq<char>, root: SyntaxNode, name: Seq<char>, class: Option<Seq<char>>, new_content: Seq<char>, r: Result<String, EditError>) -> bool {
    match r {
        Ok(t) => match lookup_ok(root, src, name, class) {
            Some(d) => t@ == symbol_replaced(src, d, new_content),
            None => false,
        },
        Err(EditError::ClassNotFound(_)) => lookup(root, src, Some(name), None, class) == Err::<SyntaxNode, DeleteErrorKind>(DeleteErrorKind::NoClass),
        Err(EditError::SymbolNotFoundInClass(_, _)) => lookup(root, src, Some(name), None, class) == Err::<SyntaxNode, DeleteErrorKind>(DeleteErrorKind::NotFoundInClass),
        Err(EditError::SymbolNotFound(_)) => lookup(root, src, Some(name), None, class) == Err::<SyntaxNode, DeleteErrorKind>(DeleteErrorKind::NotFound),
        Err(_) => false,
    }
}

/// Replace a whole declaration (top-level or in an inner class) with new
/// content; for `class_name`, the whole file.
pub fn replace_symbol(source: &str, root: &SyntaxNode, name: &str, class: Option<&str>, new_content: &str) -> (r: Result<String, EditError>)
    requires
        tree_ok(source@, *root),
        rows_within(source@, *root),
        reindent_ok(trim_end(new_content@)),
    ensures
        symbol_outcome(source@, *root, name@, opt_str(class), new_content@, r),
{
    let d = match find_edit_target(root, source, name, class) {
        Ok(d) => d,
        Err(e) => {
            return Err(e);
        },
    };
    let n = source.as_bytes().len();
    proof {
        crate::refactor::delete_symbol::lemma_full_range_spans(source@, *d);
        encode_utf8_valid_utf8(source@);
        is_char_boundary_start_end_of_seq(source.spec_bytes());
    }
    let (a, e) = if kind_is(d, "class_name_statement") {
        (0, n)
    } else {
        declaration_full_range(d, source)
    };
    let starts = line_starts(source);
    proof {
        let b = source.spec_bytes();
        lemma_nl_starts(b);
        lemma_nl_starts_boundary(source@);
        assert(span_ok(source@, nl_starts(b)[d.start_row as int] as int, b.len() as int));
        crate::syntax::lemma_span_join(source@, nl_starts(b)[d.start_row as int] as int, d.start_byte as int, d.end_byte as int);
    }
    let ls = starts[d.start_row];
    let lt = slice_str(source, ls, d.start_byte);
    let ltc = chars_of(lt.as_str());
    let tabs = count_tabs(&ltc);
    let nc = chars_of(new_content);
    let tb = trimmed_end(&nc);
    let tbs = string_of(&tb);
    let re = re_indent_to_depth(tbs.as_str(), tabs);
    let mut rec = chars_of(re.as_str());
    crate::refactor::convert_signal::end_with_nl(&mut rec);
    let head = slice_str(source, 0, a);
    let tail = slice_str(source, e, n);
    let mut out = head;
    push_str(&mut out, string_of(&rec).as_str());
    push_str(&mut out, tail.as_str());
    Ok(out)
}

// ── edit-range ─────────────────────────────────────────────────────────────

/// The text holds only line feeds and carriage returns.
pub open spec fn only_line_breaks(s: Seq<char>) -> bool {
    forall|i: int| 0 <= i < s.len() ==> s[i] == '\n' || s[i] == '\r'
}

/// The source with the 1-based lines `start..=end` replaced by the content
/// (trailing whitespace trimmed, ended with a line feed); an empty file (or
/// one of line breaks only) edited at line 1 becomes the content alone.
pub open spec fn range_edited(src: Seq<char>, start: usize, end: usize, content: Seq<char>) -> Result<Seq<char>, (nat, usize, usize)> {
    let b = encode_utf8(src);
    let starts = nl_starts(b);
    if start == 0 || end == 0 {
        Err((0, start, end))
    } else if start > end {
        Err((1, start, end))
    } else if only_line_breaks(src) && start == 1 && end == 1 {
        Ok(with_final_nl(trim_end(content)))
    } else if start > starts.len() {
        Err((2, start, starts.len() as usize))
    } else {
        let sb = starts[start - 1] as int;
        let eb = if end >= starts.len() {
            b.len() as int
        } else {
            starts[end as int] as int
        };
        Ok(text_between(src, 0, sb) + with_final_nl(trim_end(content)) + text_between(src, eb, b.len() as int))
    }
}

/// Replace a range of whole lines (1-based, inclusive) with new content.
pub fn edit_range(source: &str, start_line: usize, end_line: usize, new_content: &str) -> (r: Result<String, EditError>)
    ensures
        match r {
            Ok(t) => range_edited(source@, start_line, end_line, new_content@) == Ok::<Seq<char>, (nat, usize, usize)>(t@),
            Err(EditError::ZeroLine) => range_edited(source@, start_line, end_line, new_content@) == Err::<Seq<char>, (nat, usize, usize)>((0, start_line, end_line)),
            Err(EditError::StartAfterEnd(a, b)) => a == start_line && b == end_line && range_edited(source@, start_line, end_line, new_content@) == Err::<Seq<char>, (nat, usize, usize)>((1, start_line, end_line)),
            Err(EditError::StartBeyondEnd(a, t)) => a == start_line && range_edited(source@, start_line, end_line, new_content@) == Err::<Seq<char>, (nat, usize, usize)>((2, start_line, t)),
            Err(_) => false,
        },
{
    if start_line == 0 || end_line == 0 {
        return Err(EditError::ZeroLine);
    }
    if start_line > end_line {
        return Err(EditError::StartAfterEnd(start_line, end_line));
    }
    let sc = chars_of(source);
    let nc = chars_of(new_content);
    let mut t = trimmed_end(&nc);
    crate::refactor::convert_signal::end_with_nl(&mut t);
    let mut only_breaks = true;
    let mut i: usize = 0;
    while i < sc.len()
        invariant
            i <= sc@.len(),
            sc@ == source@,
            only_breaks == forall|j: int| 0 <= j < i ==> sc@[j] == '\n' || sc@[j] == '\r',
        decreases sc@.len() - i,
    {
        if sc[i] != '\n' && sc[i] != '\r' {
            only_breaks = false;
        }
        i += 1;
    }
    if only_breaks && start_line == 1 && end_line == 1 {
        return Ok(string_of(&t));
    }
    let starts = line_starts(source);
    let total = starts.len();
    if start_line > total {
        return Err(EditError::StartBeyondEnd(start_line, total));
    }
    let n = source.as_bytes().len();
    proof {
        let b = source.spec_bytes();
        lemma_nl_starts(b);
        lemma_nl_starts_boundary(source@);
        encode_utf8_valid_utf8(source@);
        is_char_boundary_start_end_of_seq(b);
        assert(span_ok(source@, nl_starts(b)[start_line - 1] as int, b.len() as int));
        if end_line < nl_starts(b).len() {
            assert(span_ok(source@, nl_starts(b)[end_line as int] as int, b.len() as int));
        }
    }
    let sb = starts[start_line - 1];
    let eb = if end_line >= total {
        n
    } else {
        starts[end_line]
    };
    let head = slice_str(source, 0, sb);
    let tail = slice_str(source, eb, n);
    let mut out = head;
    push_str(&mut out, string_of(&t).as_str());
    push_str(&mut out, tail.as_str());
    Ok(out)
}

/// Whether a text, without its trailing whitespace, can be re-indented.
fn reindentable_trimmed(text: &str) -> (r: bool)
    ensures
        r == reindent_ok(trim_end(text@)),
{
    let v = crate::text::chars_of(text);
    let t = crate::text::trimmed_end(v.as_slice());
    let ts = crate::text::string_of(t.as_slice());
    crate::refactor::can_re_indent(ts.as_str())
}

/// Replace a function's body in a source text, parsing it first: `None`
/// when the parser gives no tree that fits the text, or the new body
/// cannot be re-indented.
pub fn replace_body_in(source: &str, name: &str, class: Option<&str>, new_body: &str) -> (r: Option<Result<String, EditError>>)
    ensures
        r is None <==> (fitting_tree(source@) is None || !reindent_ok(trim_end(new_body@))),
        r matches Some(x) ==> body_outcome(source@, fitting_tree(source@)->0, name@, opt_str(class), new_body@, x),
{
    let root = match parse_fitting(source) {
        Some(t) => t,
        None => {
            return None;
        },
    };
    if !reindentable_trimmed(new_body) {
        return None;
    }
    Some(replace_body(source, &root, name, class, new_body))
}

/// Replace a declaration in a source text, parsing it first: `None` when
/// the parser gives no tree that fits the text, or the new content cannot be
/// re-indented.
pub fn replace_symbol_in(source: &str, name: &str, class: Option<&str>, new_content: &str) -> (r: Option<Result<String, EditError>>)
    ensures
        r is None <==> (fitting_tree(source@) is None || !reindent_ok(trim_end(new_content@))),
        r matches Some(x) ==> symbol_outcome(source@, fitting_tree(source@)->0, name@, opt_str(class), new_content@, x),
{
    let root = match parse_fitting(source) {
        Some(t) => t,
        None => {
            return None;
        },
    };
    if !reindentable_trimmed(new_content) {
        return None;
    }
    Some(replace_symbol(source, &root, name, class, new_content))
}

/// Insert content next to a declaration in a source text, parsing it first:
/// `None` when the parser gives no tree that fits the text.
pub fn insert_in(source: &str, anchor_name: &str, after: bool, class: Option<&str>, content: &str) -> (r: Option<Result<String, EditError>>)
    ensures
        r is None <==> fitting_tree(source@) is None,
        r matches Some(x) ==> insert_outcome(source@, fitting_tree(source@)->0, anchor_name@, after, opt_str(class), content@, x),
{
    match parse_fitting(source) {
        Some(root) => Some(insert(source, &root, anchor_name, after, class, content)),
        None => None,
    }
}

} // verus!
