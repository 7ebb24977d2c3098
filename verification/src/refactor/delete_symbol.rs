//! Delete-symbol: remove a declaration (with its doc comments and
//! annotations) or one member of an enum.
use vstd::prelude::*;
use vstd::string::StringSliceAdditionalSpecFns;
use vstd::utf8::{encode_utf8, encode_utf8_valid_utf8, is_char_boundary_start_end_of_seq};

use crate::parse::{fitting_tree, parse_fitting};
use crate::refactor::{
    LineRange, RefLocation, class_index, collapse, decl_by_line_index, decl_by_name_index,
    decl_name, declaration_full_range, declaration_kind_str, find_class_definition,
    find_declaration_by_line, find_declaration_in_class, find_declaration_in_class_by_line,
    find_top_decl, full_range, get_declaration_name, kind_name, lemma_nl_starts,
    lemma_nl_starts_boundary, line_starts, named_decl, nl_starts, normalize_blank_lines,
};
use crate::syntax::{
    SyntaxNode, ends_ordered, lemma_after_ascii_boundary, child_by_field_name, field_child, kind_is, named_child, named_child_at,
    node_text, slice_str, span_ok, text_between, text_of, tree_ok,
};
use crate::text::{
    chars_of, concat_strs, concat_views, decimal, decimal_string, first_occurrence, push_str,
    seq_eq, string_of,
};

verus! {

/// What went wrong with a delete request.
#[derive(PartialEq, Eq, Structural, Clone, Copy, Debug)]
pub enum DeleteErrorKind {
    /// No inner class has the given name.
    NoClass,
    /// The class declares nothing with the name.
    NotFoundInClass,
    /// The class declares nothing on the line.
    NotFoundAtLineInClass,
    /// Neither a name nor a line was given.
    NameOrLineRequired,
    /// Nothing at top level has the name.
    NotFound,
    /// Nothing at top level starts on the line.
    NotFoundAtLine,
    /// No top-level declaration has the enum's name.
    NoEnum,
    /// The declaration with the enum's name is no enum.
    NotEnum,
    /// The enum has no body.
    EnumWithoutBody,
    /// The enum has no such member.
    NoMember,
    /// The member is the enum's only one.
    LastMember,
}

/// A refused delete request: what went wrong, and the request's name, class
/// (or enum) and line as the message quotes them.
#[derive(Debug)]
pub struct DeleteError {
    pub kind: DeleteErrorKind,
    pub name: String,
    pub class: String,
    pub line: usize,
}

impl DeleteError {
    /// The message shown to the user.
    pub fn message(&self) -> (r: String)
        ensures
            r@ == match self.kind {
                DeleteErrorKind::NoClass => "no inner class named '"@ + self.class@ + "' found"@,
                DeleteErrorKind::NotFoundInClass => "no declaration named '"@ + self.name@
                    + "' found in class '"@ + self.class@ + "'"@,
                DeleteErrorKind::NotFoundAtLineInClass => "no declaration found at line "@ + decimal(
                    self.line as nat,
                ) + " in class '"@ + self.class@ + "'"@,
                DeleteErrorKind::NameOrLineRequired => "either --name or --line is required"@,
                DeleteErrorKind::NotFound => "no declaration named '"@ + self.name@
                    + "' found at top level"@,
                DeleteErrorKind::NotFoundAtLine => "no declaration found at line "@ + decimal(
                    self.line as nat,
                ),
                DeleteErrorKind::NoEnum => "no enum named '"@ + self.class@ + "' found"@,
                DeleteErrorKind::NotEnum => "'"@ + self.class@ + "' is not an enum"@,
                DeleteErrorKind::EnumWithoutBody => "enum has no body"@,
                DeleteErrorKind::NoMember => "no member '"@ + self.name@ + "' in enum '"@ + self.class@
                    + "'"@,
                DeleteErrorKind::LastMember => "cannot delete the last member of enum '"@ + self.class@
                    + "'"@,
            },
    {
        let n = self.name.as_str();
        let c = self.class.as_str();
        let l = decimal_string(self.line);
        let ls = l.as_str();
        let r = match self.kind {
            DeleteErrorKind::NoClass => concat_strs(&["no inner class named '", c, "' found"]),
            DeleteErrorKind::NotFoundInClass => concat_strs(
                &["no declaration named '", n, "' found in class '", c, "'"],
            ),
            DeleteErrorKind::NotFoundAtLineInClass => concat_strs(
                &["no declaration found at line ", ls, " in class '", c, "'"],
            ),
            DeleteErrorKind::NameOrLineRequired => concat_strs(
                &["either --name or --line is required"],
            ),
            DeleteErrorKind::NotFound => concat_strs(
                &["no declaration named '", n, "' found at top level"],
            ),
            DeleteErrorKind::NotFoundAtLine => concat_strs(&["no declaration found at line ", ls]),
            DeleteErrorKind::NoEnum => concat_strs(&["no enum named '", c, "' found"]),
            DeleteErrorKind::NotEnum => concat_strs(&["'", c, "' is not an enum"]),
            DeleteErrorKind::EnumWithoutBody => concat_strs(&["enum has no body"]),
            DeleteErrorKind::NoMember => concat_strs(&["no member '", n, "' in enum '", c, "'"]),
            DeleteErrorKind::LastMember => concat_strs(
                &["cannot delete the last member of enum '", c, "'"],
            ),
        };
        proof {
            reveal_with_fuel(concat_views, 6);
        }
        r
    }
}

/// The text of an optional argument, empty when absent.
pub open spec fn or_empty(o: Option<&str>) -> Seq<char> {
    match o {
        Some(s) => s@,
        None => Seq::empty(),
    }
}

fn error(kind: DeleteErrorKind, name: Option<&str>, class: Option<&str>, line: Option<usize>) -> (e: DeleteError)
    ensures
        e.kind == kind,
        e.name@ == or_empty(name),
        e.class@ == or_empty(class),
        e.line == match line {
            Some(l) => l,
            None => 0,
        },
{
    DeleteError {
        kind,
        name: match name {
            Some(n) => String::from_str(n),
            None => String::new(),
        },
        class: match class {
            Some(c) => String::from_str(c),
            None => String::new(),
        },
        line: match line {
            Some(l) => l,
            None => 0,
        },
    }
}

// ── Finding the declaration ────────────────────────────────────────────────

/// Every node of the tree starts on a line the text has, at or after that
/// line's first byte.
pub open spec fn rows_within(src: Seq<char>, n: SyntaxNode) -> bool
    decreases n,
{
    &&& n.start_row < nl_starts(encode_utf8(src)).len()
    &&& nl_starts(encode_utf8(src))[n.start_row as int] <= n.start_byte
    &&& forall|i: int| 0 <= i < n.children@.len() ==> rows_within(src, #[trigger] n.children@[i])
}

/// The declaration among `cs` that a name, or else a 1-based line, picks.
pub open spec fn pick(cs: Seq<SyntaxNode>, src: Seq<char>, name: Option<Seq<char>>, line: Option<usize>) -> Option<SyntaxNode> {
    match name {
        Some(n) => match decl_by_name_index(cs, src, n) {
            Some(i) => Some(cs[i]),
            None => None,
        },
        None => match line {
            Some(l) => match decl_by_line_index(cs, (l - 1) as usize) {
                Some(i) => Some(cs[i]),
                None => None,
            },
            None => None,
        },
    }
}

/// The declaration a delete request names: by name or 1-based line, at top
/// level or inside the named inner class.
pub open spec fn lookup(root: SyntaxNode, src: Seq<char>, name: Option<Seq<char>>, line: Option<usize>, class: Option<Seq<char>>) -> Result<SyntaxNode, DeleteErrorKind> {
    match class {
        Some(c) => match class_index(root.children@, src, c) {
            None => Err(DeleteErrorKind::NoClass),
            Some(ci) => {
                let cs = match field_child(root.children@[ci], "body"@) {
                    Some(b) => b.children@,
                    None => Seq::empty(),
                };
                if name is None && line is None {
                    Err(DeleteErrorKind::NameOrLineRequired)
                } else {
                    match pick(cs, src, name, line) {
                        Some(d) => Ok(d),
                        None => Err(
                            if name is Some {
                                DeleteErrorKind::NotFoundInClass
                            } else {
                                DeleteErrorKind::NotFoundAtLineInClass
                            },
                        ),
                    }
                }
            },
        },
        None => if name is None && line is None {
            Err(DeleteErrorKind::NameOrLineRequired)
        } else {
            match pick(root.children@, src, name, line) {
                Some(d) => Ok(d),
                None => Err(
                    if name is Some {
                        DeleteErrorKind::NotFound
                    } else {
                        DeleteErrorKind::NotFoundAtLine
                    },
                ),
            }
        },
    }
}

/// The view of an optional argument.
pub open spec fn opt_str(o: Option<&str>) -> Option<Seq<char>> {
    match o {
        Some(s) => Some(s@),
        None => None,
    }
}

proof fn lemma_child_ok(src: Seq<char>, p: SyntaxNode, i: int)
    requires
        tree_ok(src, p),
        rows_within(src, p),
        0 <= i < p.children@.len(),
    ensures
        tree_ok(src, p.children@[i]),
        rows_within(src, p.children@[i]),
{
}

fn pick_among<'a>(parent: &'a SyntaxNode, source: &str, name: Option<&str>, line: Option<usize>) -> (r: Option<&'a SyntaxNode>)
    requires
        tree_ok(source@, *parent),
        rows_within(source@, *parent),
        name is Some || line is Some,
        line matches Some(l) ==> l >= 1,
    ensures
        match r {
            Some(d) => pick(parent.children@, source@, opt_str(name), line) == Some(*d) && tree_ok(
                source@,
                *d,
            ) && rows_within(source@, *d),
            None => pick(parent.children@, source@, opt_str(name), line) is None,
        },
{
    match name {
        Some(n) => {
            let r = crate::refactor::find_declaration_among(parent, source, n);
            match r {
                Some(d) => {
                    let ghost i = choose|i: int|
                        0 <= i < parent.children@.len() && decl_by_name_index(
                            parent.children@,
                            source@,
                            n@,
                        ) == Some(i) && parent.children@[i] == *d;
                    proof {
                        lemma_child_ok(source@, *parent, i);
                    }
                },
                None => {},
            }
            r
        },
        None => {
            let l = match line {
                Some(l) => l,
                None => 0,
            };
            let r = crate::refactor::find_declaration_among_by_line(parent, l - 1);
            match r {
                Some(d) => {
                    let ghost i = choose|i: int|
                        0 <= i < parent.children@.len() && decl_by_line_index(
                            parent.children@,
                            (l - 1) as usize,
                        ) == Some(i) && parent.children@[i] == *d;
                    proof {
                        lemma_child_ok(source@, *parent, i);
                    }
                },
                None => {},
            }
            r
        },
    }
}

/// Find the declaration a delete request names.
pub fn find_delete_target<'a>(root: &'a SyntaxNode, source: &str, name: Option<&str>, line: Option<usize>, class: Option<&str>) -> (r: Result<&'a SyntaxNode, DeleteError>)
    requires
        tree_ok(source@, *root),
        rows_within(source@, *root),
        line matches Some(l) ==> l >= 1,
    ensures
        match r {
            Ok(d) => lookup(*root, source@, opt_str(name), line, opt_str(class)) == Ok::<
                SyntaxNode,
                DeleteErrorKind,
            >(*d) && tree_ok(source@, *d) && rows_within(source@, *d),
            Err(e) => {
                &&& lookup(*root, source@, opt_str(name), line, opt_str(class)) == Err::<
                    SyntaxNode,
                    DeleteErrorKind,
                >(e.kind)
                &&& e.name@ == or_empty(name)
                &&& e.class@ == or_empty(class)
                &&& e.line == match line {
                    Some(l) => l,
                    None => 0,
                }
            },
        },
{
    match class {
        Some(c) => {
            let cn = match find_class_definition(root, source, c) {
                Some(cn) => cn,
                None => {
                    return Err(error(DeleteErrorKind::NoClass, name, class, line));
                },
            };
            let ghost ci = choose|i: int|
                0 <= i < root.children@.len() && class_index(root.children@, source@, c@) == Some(i)
                    && root.children@[i] == *cn;
            proof {
                lemma_child_ok(source@, *root, ci);
            }
            if name.is_none() && line.is_none() {
                return Err(error(DeleteErrorKind::NameOrLineRequired, name, class, line));
            }
            match child_by_field_name(cn, "body") {
                Some(b) => {
                    let ghost bi = choose|i: int| 0 <= i < cn.children@.len() && cn.children@[i] == *b;
                    proof {
                        lemma_child_ok(source@, *cn, bi);
                    }
                    match pick_among(b, source, name, line) {
                        Some(d) => Ok(d),
                        None => {
                            if name.is_some() {
                                Err(error(DeleteErrorKind::NotFoundInClass, name, class, line))
                            } else {
                                Err(error(DeleteErrorKind::NotFoundAtLineInClass, name, class, line))
                            }
                        },
                    }
                },
                None => {
                    proof {
                        assert(pick(Seq::<SyntaxNode>::empty(), source@, opt_str(name), line) is None);
                    }
                    if name.is_some() {
                        Err(error(DeleteErrorKind::NotFoundInClass, name, class, line))
                    } else {
                        Err(error(DeleteErrorKind::NotFoundAtLineInClass, name, class, line))
                    }
                },
            }
        },
        None => {
            if name.is_none() && line.is_none() {
                return Err(error(DeleteErrorKind::NameOrLineRequired, name, class, line));
            }
            match pick_among(root, source, name, line) {
                Some(d) => Ok(d),
                None => {
                    if name.is_some() {
                        Err(error(DeleteErrorKind::NotFound, name, class, line))
                    } else {
                        Err(error(DeleteErrorKind::NotFoundAtLine, name, class, line))
                    }
                },
            }
        },
    }
}

// ── Planning a deletion ────────────────────────────────────────────────────

/// The first index, from `i` on, of a line start after `x` (at or after `x`
/// when not `strict`); the number of starts when there is none.
pub open spec fn first_start(starts: Seq<usize>, x: int, strict: bool, i: int) -> int
    decreases starts.len() - i,
{
    if i < 0 || i >= starts.len() {
        starts.len() as int
    } else if (if strict {
        starts[i] > x
    } else {
        starts[i] >= x
    }) {
        i
    } else {
        first_start(starts, x, strict, i + 1)
    }
}

fn first_start_index(starts: &Vec<usize>, x: usize, strict: bool) -> (r: usize)
    ensures
        r == first_start(starts@, x as int, strict, 0),
{
    let mut i: usize = 0;
    while i < starts.len()
        invariant
            i <= starts@.len(),
            first_start(starts@, x as int, strict, 0) == first_start(starts@, x as int, strict, i as int),
        decreases starts@.len() - i,
    {
        let hit = if strict {
            starts[i] > x
        } else {
            starts[i] >= x
        };
        if hit {
            return i;
        }
        i += 1;
    }
    i
}

/// A planned deletion.
pub struct DeletePlan {
    /// The deleted symbol's name (`unknown` when it has none).
    pub symbol: String,
    /// Its kind, as reported.
    pub kind: String,
    /// The 1-based lines removed.
    pub removed_lines: LineRange,
    /// The source after the deletion.
    pub new_source: String,
    /// The 0-based first and last rows of the deleted node (references on
    /// these rows of the same file are its own).
    pub own_rows: (u32, u32),
}

/// The source with the byte range `a..b` cut out.
pub open spec fn cut(src: Seq<char>, a: int, b: int) -> Seq<char> {
    text_between(src, 0, a) + text_between(src, b, encode_utf8(src).len() as int)
}

/// The source without the declaration (and its comments, annotations and
/// trailing line feed), with runs of more than three line feeds collapsed.
pub open spec fn without_declaration(src: Seq<char>, d: SyntaxNode) -> Seq<char> {
    collapse(cut(src, full_range(src, d).0 as int, full_range(src, d).1 as int)).0
}

/// What a deletion reports and leaves, for the declaration `d`.
pub open spec fn deletion_of(src: Seq<char>, d: SyntaxNode, p: DeletePlan) -> bool {
    let starts = nl_starts(encode_utf8(src));
    let (a, b) = full_range(src, d);
    &&& p.symbol@ == match decl_name(d, src) {
        Some(n) => n,
        None => "unknown"@,
    }
    &&& p.kind@ == kind_name(d.kind@)
    &&& p.removed_lines.start == first_start(starts, a as int, true, 0) as u32
    &&& p.removed_lines.end == first_start(starts, b as int, false, 0) as u32
    &&& p.new_source@ == without_declaration(src, d)
    &&& p.own_rows == (d.start_row as u32, d.end_row as u32)
}

proof fn lemma_full_range_tail(src: Seq<char>, d: SyntaxNode)
    requires
        tree_ok(src, d),
        rows_within(src, d),
        encode_utf8(src).len() <= usize::MAX,
    ensures
        span_ok(src, full_range(src, d).0 as int, encode_utf8(src).len() as int),
        span_ok(src, full_range(src, d).1 as int, encode_utf8(src).len() as int),
{
    let bs = encode_utf8(src);
    lemma_nl_starts(bs);
    lemma_nl_starts_boundary(src);
    encode_utf8_valid_utf8(src);
    is_char_boundary_start_end_of_seq(bs);
    let f = crate::refactor::first_attached(src, d.start_row as nat);
    lemma_first_attached_le(src, d.start_row as nat);
    assert(span_ok(src, nl_starts(bs)[f as int] as int, bs.len() as int));
    if d.end_byte < bs.len() && bs[d.end_byte as int] == 10u8 {
        crate::syntax::lemma_after_newline_boundary(bs, d.end_byte as int);
    }
}

/// The full range of a declaration lies on character boundaries.
pub(crate) proof fn lemma_full_range_spans(src: Seq<char>, d: SyntaxNode)
    requires
        tree_ok(src, d),
        rows_within(src, d),
        encode_utf8(src).len() <= usize::MAX,
    ensures
        span_ok(src, full_range(src, d).0 as int, encode_utf8(src).len() as int),
        span_ok(src, full_range(src, d).1 as int, encode_utf8(src).len() as int),
        span_ok(src, full_range(src, d).0 as int, full_range(src, d).1 as int),
{
    lemma_full_range_tail(src, d);
    let bs = encode_utf8(src);
    lemma_nl_starts(bs);
    let f = crate::refactor::first_attached(src, d.start_row as nat);
    lemma_first_attached_le(src, d.start_row as nat);
    if f < d.start_row {
        assert(nl_starts(bs)[f as int] < nl_starts(bs)[d.start_row as int]);
    }
}

proof fn lemma_first_attached_le(src: Seq<char>, d: nat)
    ensures
        crate::refactor::first_attached(src, d) <= d,
    decreases d,
{
    if d > 0 {
        lemma_first_attached_le(src, (d - 1) as nat);
    }
}

fn cut_range(source: &str, a: usize, b: usize) -> (r: String)
    requires
        span_ok(source@, a as int, encode_utf8(source@).len() as int),
        span_ok(source@, b as int, encode_utf8(source@).len() as int),
    ensures
        r@ == cut(source@, a as int, b as int),
{
    let n = source.as_bytes().len();
    proof {
        encode_utf8_valid_utf8(source@);
        is_char_boundary_start_end_of_seq(source.spec_bytes());
    }
    let head = slice_str(source, 0, a);
    let tail = slice_str(source, b, n);
    let mut out = String::new();
    push_str(&mut out, head.as_str());
    push_str(&mut out, tail.as_str());
    out
}

/// The source without the declaration, its comments and annotations, and
/// its trailing line feed.
pub fn remove_declaration(source: &str, decl: &SyntaxNode) -> (r: String)
    requires
        tree_ok(source@, *decl),
        rows_within(source@, *decl),
    ensures
        r@ == without_declaration(source@, *decl),
{
    let (a, b) = declaration_full_range(decl, source);
    let n = source.as_bytes().len();
    proof {
        lemma_full_range_spans(source@, *decl);
    }
    let mut new_source = cut_range(source, a, b);
    normalize_blank_lines(&mut new_source);
    new_source
}

/// The source without the top-level declaration of `name` where it has one,
/// then with runs of more than three line feeds collapsed.
pub open spec fn without_named(src: Seq<char>, root: SyntaxNode, name: Seq<char>) -> Seq<char> {
    match named_decl(root, src, name) {
        Some(d) => collapse(without_declaration(src, d)).0,
        None => collapse(src).0,
    }
}

/// Delete the top-level declaration of `name` (with its comments and
/// annotations), as an inlined function's definition goes once its calls are
/// replaced; then collapse blank lines.
pub fn remove_named_definition(source: &str, root: &SyntaxNode, name: &str) -> (r: String)
    requires
        tree_ok(source@, *root),
        rows_within(source@, *root),
    ensures
        r@ == without_named(source@, *root, name@),
{
    let mut out = match crate::refactor::find_top_decl(root, source, name) {
        Some(d) => {
            let ghost i = choose|i: int| 0 <= i < root.children@.len() && root.children@[i] == *d;
            assert(rows_within(source@, root.children@[i]));
            remove_declaration(source, d)
        },
        None => String::from_str(source),
    };
    normalize_blank_lines(&mut out);
    out
}

/// Parse a source text and delete the top-level declaration of `name` as
/// `remove_named_definition` does: `None` when the parser gives no tree that
/// fits the text.
pub fn remove_definition_in(source: &str, name: &str) -> (r: Option<String>)
    ensures
        r is None <==> fitting_tree(source@) is None,
        r matches Some(t) ==> t@ == without_named(source@, fitting_tree(source@)->0, name@),
{
    match parse_fitting(source) {
        Some(root) => Some(remove_named_definition(source, &root, name)),
        None => None,
    }
}

/// What planning the deletion of a declaration gives: the plan of the
/// declaration that the lookup finds, or the lookup's error.
pub open spec fn delete_outcome(
    src: Seq<char>,
    root: SyntaxNode,
    name: Option<&str>,
    line: Option<usize>,
    class: Option<&str>,
    r: Result<DeletePlan, DeleteError>,
) -> bool {
    match r {
        Ok(p) => match lookup(root, src, opt_str(name), line, opt_str(class)) {
            Ok(d) => deletion_of(src, d, p),
            Err(_) => false,
        },
        Err(e) => {
            &&& lookup(root, src, opt_str(name), line, opt_str(class)) == Err::<SyntaxNode, DeleteErrorKind>(e.kind)
            &&& e.name@ == or_empty(name)
            &&& e.class@ == or_empty(class)
            &&& e.line == match line {
                Some(l) => l,
                None => 0,
            }
        },
    }
}

/// Plan the deletion of a declaration named by name or 1-based line, at top
/// level or in an inner class: what it reports and the source it leaves.
pub fn plan_delete_symbol(source: &str, root: &SyntaxNode, name: Option<&str>, line: Option<usize>, class: Option<&str>) -> (r: Result<DeletePlan, DeleteError>)
    requires
        tree_ok(source@, *root),
        rows_within(source@, *root),
        line matches Some(l) ==> l >= 1,
    ensures
        delete_outcome(source@, *root, name, line, class, r),
{
    let d = match find_delete_target(root, source, name, line, class) {
        Ok(d) => d,
        Err(e) => {
            return Err(e);
        },
    };
    let symbol = match get_declaration_name(d, source) {
        Some(s) => s,
        None => String::from_str("unknown"),
    };
    let kind = String::from_str(declaration_kind_str(d.kind.as_str()));
    let (a, b) = declaration_full_range(d, source);
    let starts = line_starts(source);
    let n = source.as_bytes().len();
    proof {
        lemma_full_range_spans(source@, *d);
    }
    let sl = first_start_index(&starts, a, true);
    let el = first_start_index(&starts, b, false);
    let mut new_source = cut_range(source, a, b);
    normalize_blank_lines(&mut new_source);
    Ok(
        DeletePlan {
            symbol,
            kind,
            removed_lines: LineRange { start: sl as u32, end: el as u32 },
            new_source,
            own_rows: (d.start_row as u32, d.end_row as u32),
        },
    )
}

// ── Enum members ───────────────────────────────────────────────────────────

/// `Enum.MEMBER` split at its first dot.
pub open spec fn dotted(name: Seq<char>) -> Option<(Seq<char>, Seq<char>)> {
    match first_occurrence(name, seq!['.']) {
        Some(p) => Some((name.subrange(0, p), name.subrange(p + 1, name.len() as int))),
        None => None,
    }
}

/// Split `Enum.MEMBER` at its first dot (`split_once('.')`).
pub fn split_enum_member(name: &str) -> (r: Option<(String, String)>)
    ensures
        match r {
            Some((e, m)) => dotted(name@) == Some((e@, m@)),
            None => dotted(name@) is None,
        },
{
    let v = chars_of(name);
    let dot = ['.'];
    assert(dot@ =~= seq!['.']);
    match crate::text::position_of(&v, &dot) {
        Some(p) => {
            let n = v.len();
            let e = crate::text::slice_of(&v, 0, p);
            let m = crate::text::slice_of(&v, p + 1, n);
            Some((string_of(&e), string_of(&m)))
        },
        None => None,
    }
}

/// The indices of the `enumerator` children among the first `k`.
pub open spec fn enumerator_indices(cs: Seq<SyntaxNode>, k: int) -> Seq<int>
    decreases k,
{
    if k <= 0 || k > cs.len() {
        Seq::empty()
    } else {
        let r = enumerator_indices(cs, k - 1);
        if cs[k - 1].kind@ == "enumerator"@ {
            r.push(k - 1)
        } else {
            r
        }
    }
}

/// The `enumerator` children, by index, in order.
pub open spec fn enumerators(body: SyntaxNode) -> Seq<int> {
    enumerator_indices(body.children@, body.children@.len() as int)
}

/// The enumerator declares `member`: its `name` child, or else its first
/// named child, reads `member`.
pub open spec fn declares_member(e: SyntaxNode, src: Seq<char>, member: Seq<char>) -> bool {
    match field_child(e, "name"@) {
        Some(n) => text_of(src, n) == member,
        None => match named_child(e, 0) {
            Some(c) => text_of(src, c) == member,
            None => false,
        },
    }
}

/// The first position, from `j` on, in the enumerator list of an enumerator
/// that declares `member`.
pub open spec fn member_position(body: SyntaxNode, src: Seq<char>, member: Seq<char>, j: int) -> Option<int>
    decreases enumerators(body).len() - j,
{
    let es = enumerators(body);
    if j < 0 || j >= es.len() {
        None
    } else if declares_member(body.children@[es[j]], src, member) {
        Some(j)
    } else {
        member_position(body, src, member, j + 1)
    }
}

/// The first byte index in `a..b` holding a comma.
pub open spec fn first_comma(bytes: Seq<u8>, a: int, b: int) -> Option<int>
    decreases b - a,
{
    if a >= b {
        None
    } else if bytes[a] == 44u8 {
        Some(a)
    } else {
        first_comma(bytes, a + 1, b)
    }
}

/// The byte range that removes the enumerator at position `j` of the list:
/// for the first, up to the next one's start; for another, from just after
/// the first comma following the previous one (or from its end when there is
/// none) to the member's end.
pub open spec fn member_removal(src: Seq<char>, body: SyntaxNode, j: int) -> (int, int) {
    let es = enumerators(body);
    let m = body.children@[es[j]];
    if es.len() == 1 {
        (m.start_byte as int, m.end_byte as int)
    } else if j == 0 {
        (m.start_byte as int, body.children@[es[1]].start_byte as int)
    } else {
        let prev = body.children@[es[j - 1]];
        match first_comma(encode_utf8(src), prev.end_byte as int, m.end_byte as int) {
            Some(k) => (k + 1, m.end_byte as int),
            None => (prev.end_byte as int, m.end_byte as int),
        }
    }
}

/// The enum a member deletion names, or why there is none.
pub open spec fn enum_lookup(root: SyntaxNode, src: Seq<char>, enum_name: Seq<char>, member: Seq<char>) -> Result<(SyntaxNode, SyntaxNode, int), DeleteErrorKind> {
    match named_decl(root, src, enum_name) {
        None => Err(DeleteErrorKind::NoEnum),
        Some(en) => if en.kind@ != "enum_definition"@ {
            Err(DeleteErrorKind::NotEnum)
        } else {
            match field_child(en, "body"@) {
                None => Err(DeleteErrorKind::EnumWithoutBody),
                Some(body) => match member_position(body, src, member, 0) {
                    None => Err(DeleteErrorKind::NoMember),
                    Some(j) => if enumerators(body).len() == 1 {
                        Err(DeleteErrorKind::LastMember)
                    } else {
                        Ok((en, body, j))
                    },
                },
            }
        },
    }
}

/// What deleting the member reports and leaves.
pub open spec fn member_deletion(src: Seq<char>, enum_name: Seq<char>, member: Seq<char>, en: SyntaxNode, body: SyntaxNode, j: int, p: DeletePlan) -> bool {
    let starts = nl_starts(encode_utf8(src));
    let m = body.children@[enumerators(body)[j]];
    let (a, b) = member_removal(src, body, j);
    let first = first_start(starts, m.start_byte as int, true, 0) as u32;
    &&& p.symbol@ == enum_name + "."@ + member
    &&& p.kind@ == "enum_member"@
    &&& p.removed_lines == LineRange { start: first, end: first }
    &&& p.new_source@ == cut(src, a, b)
    &&& p.own_rows == (en.start_row as u32, en.end_row as u32)
}

proof fn lemma_enumerator_indices(cs: Seq<SyntaxNode>, k: int)
    requires
        0 <= k <= cs.len(),
    ensures
        forall|j: int|
            0 <= j < enumerator_indices(cs, k).len() ==> 0 <= #[trigger] enumerator_indices(cs, k)[j]
                < k && cs[enumerator_indices(cs, k)[j]].kind@ == "enumerator"@,
        forall|i: int, j: int|
            0 <= i < j < enumerator_indices(cs, k).len() ==> enumerator_indices(cs, k)[i]
                < enumerator_indices(cs, k)[j],
    decreases k,
{
    if k > 0 {
        lemma_enumerator_indices(cs, k - 1);
    }
}

fn enumerator_list(body: &SyntaxNode) -> (r: Vec<usize>)
    ensures
        r@.len() == enumerators(*body).len(),
        forall|j: int| 0 <= j < r@.len() ==> r@[j] == enumerators(*body)[j],
{
    let mut r: Vec<usize> = Vec::new();
    let mut i: usize = 0;
    while i < body.children.len()
        invariant
            i <= body.children@.len(),
            r@.len() == enumerator_indices(body.children@, i as int).len(),
            forall|j: int| 0 <= j < r@.len() ==> r@[j] == enumerator_indices(body.children@, i as int)[j],
        decreases body.children@.len() - i,
    {
        if kind_is(&body.children[i], "enumerator") {
            r.push(i);
        }
        i += 1;
    }
    r
}

fn member_declared(e: &SyntaxNode, source: &str, member: &str) -> (r: bool)
    requires
        tree_ok(source@, *e),
    ensures
        r == declares_member(*e, source@, member@),
{
    let target = chars_of(member);
    match child_by_field_name(e, "name") {
        Some(n) => {
            assert(tree_ok(source@, *n));
            let t = node_text(n, source);
            let tc = chars_of(t.as_str());
            seq_eq(&tc, &target)
        },
        None => match named_child_at(e, 0) {
            Some(c) => {
                proof {
                    crate::syntax::lemma_named_child_in(*e, 0);
                    let i = choose|i: int| 0 <= i < e.children@.len() && e.children@[i] == *c;
                    assert(tree_ok(source@, e.children@[i]));
                }
                let t = node_text(c, source);
                let tc = chars_of(t.as_str());
                seq_eq(&tc, &target)
            },
            None => false,
        },
    }
}

fn member_error(kind: DeleteErrorKind, enum_name: &str, member_name: &str) -> (e: DeleteError)
    ensures
        e.kind == kind,
        e.name@ == member_name@,
        e.class@ == enum_name@,
        e.line == 0,
{
    DeleteError { kind, name: String::from_str(member_name), class: String::from_str(enum_name), line: 0 }
}

fn comma_after(source: &str, a: usize, b: usize) -> (r: Option<usize>)
    requires
        a <= b <= source.spec_bytes().len(),
    ensures
        match r {
            Some(k) => first_comma(source.spec_bytes(), a as int, b as int) == Some(k as int) && a <= k < b
                && source.spec_bytes()[k as int] == 44u8,
            None => first_comma(source.spec_bytes(), a as int, b as int) is None,
        },
{
    let bytes = source.as_bytes();
    let mut k = a;
    while k < b
        invariant
            a <= k <= b <= bytes@.len(),
            bytes@ == source.spec_bytes(),
            first_comma(bytes@, a as int, b as int) == first_comma(bytes@, k as int, b as int),
        decreases b - k,
    {
        if bytes[k] == 44u8 {
            return Some(k);
        }
        k += 1;
    }
    None
}

fn locate_member(body: &SyntaxNode, es: &Vec<usize>, source: &str, member_name: &str) -> (r: Option<usize>)
    requires
        tree_ok(source@, *body),
        es@.len() == enumerators(*body).len(),
        forall|q: int| 0 <= q < es@.len() ==> es@[q] == enumerators(*body)[q],
        forall|q: int| 0 <= q < es@.len() ==> 0 <= #[trigger] es@[q] < body.children@.len(),
    ensures
        match r {
            Some(j) => j < es@.len() && member_position(*body, source@, member_name@, 0) == Some(j as int),
            None => member_position(*body, source@, member_name@, 0) is None,
        },
{
    let mut j: usize = 0;
    while j < es.len()
        invariant
            j <= es@.len(),
            es@.len() == enumerators(*body).len(),
            forall|q: int| 0 <= q < es@.len() ==> es@[q] == enumerators(*body)[q],
            forall|q: int| 0 <= q < es@.len() ==> 0 <= #[trigger] es@[q] < body.children@.len(),
            tree_ok(source@, *body),
            member_position(*body, source@, member_name@, 0) == member_position(*body, source@, member_name@, j as int),
        decreases es@.len() - j,
    {
        assert(0 <= es@[j as int] < body.children@.len());
        assert(tree_ok(source@, body.children@[es@[j as int] as int]));
        if member_declared(&body.children[es[j]], source, member_name) {
            return Some(j);
        }
        j += 1;
    }
    None
}

fn removal_range(source: &str, body: &SyntaxNode, es: &Vec<usize>, j: usize) -> (r: (usize, usize))
    requires
        tree_ok(source@, *body),
        ends_ordered(*body),
        es@.len() == enumerators(*body).len(),
        es@.len() > 1,
        j < es@.len(),
        forall|q: int| 0 <= q < es@.len() ==> es@[q] == enumerators(*body)[q],
        forall|q: int| 0 <= q < es@.len() ==> 0 <= #[trigger] es@[q] < body.children@.len(),
        forall|p: int, q: int| 0 <= p < q < es@.len() ==> es@[p] < es@[q],
    ensures
        r.0 as int == member_removal(source@, *body, j as int).0,
        r.1 as int == member_removal(source@, *body, j as int).1,
        span_ok(source@, r.0 as int, encode_utf8(source@).len() as int),
        span_ok(source@, r.1 as int, encode_utf8(source@).len() as int),
{
    let m = &body.children[es[j]];
    assert(tree_ok(source@, *m));
    let n = source.as_bytes().len();
    proof {
        encode_utf8_valid_utf8(source@);
        is_char_boundary_start_end_of_seq(source.spec_bytes());
    }
    if j == 0 {
        let next = &body.children[es[1]];
        assert(tree_ok(source@, *next));
        (m.start_byte, next.start_byte)
    } else {
        let prev = &body.children[es[j - 1]];
        assert(tree_ok(source@, *prev));
        assert(es@[j - 1] < es@[j as int]);
        proof {
            crate::syntax::lemma_ends_ordered(*body, es@[j - 1] as int, es@[j as int] as int);
        }
        assert(prev.end_byte <= m.end_byte);
        match comma_after(source, prev.end_byte, m.end_byte) {
            Some(k) => {
                proof {
                    lemma_after_ascii_boundary(source.spec_bytes(), k as int);
                }
                (k + 1, m.end_byte)
            },
            None => (prev.end_byte, m.end_byte),
        }
    }
}

/// The enum's node and body, or why there is none.
pub open spec fn enum_body(root: SyntaxNode, src: Seq<char>, enum_name: Seq<char>) -> Result<(SyntaxNode, SyntaxNode), DeleteErrorKind> {
    match named_decl(root, src, enum_name) {
        None => Err(DeleteErrorKind::NoEnum),
        Some(en) => if en.kind@ != "enum_definition"@ {
            Err(DeleteErrorKind::NotEnum)
        } else {
            match field_child(en, "body"@) {
                None => Err(DeleteErrorKind::EnumWithoutBody),
                Some(body) => Ok((en, body)),
            }
        },
    }
}

fn find_enum_body<'a>(root: &'a SyntaxNode, source: &str, enum_name: &str, member_name: &str) -> (r: Result<(&'a SyntaxNode, &'a SyntaxNode), DeleteError>)
    requires
        tree_ok(source@, *root),
        ends_ordered(*root),
    ensures
        match r {
            Ok((en, body)) => enum_body(*root, source@, enum_name@) == Ok::<(SyntaxNode, SyntaxNode), DeleteErrorKind>((*en, *body))
                && tree_ok(source@, *body) && ends_ordered(*body),
            Err(e) => {
                &&& enum_body(*root, source@, enum_name@) == Err::<(SyntaxNode, SyntaxNode), DeleteErrorKind>(e.kind)
                &&& e.name@ == member_name@
                &&& e.class@ == enum_name@
                &&& e.line == 0
            },
        },
{
    let en = match find_top_decl(root, source, enum_name) {
        Some(en) => en,
        None => {
            return Err(member_error(DeleteErrorKind::NoEnum, enum_name, member_name));
        },
    };
    proof {
        let i = choose|i: int| 0 <= i < root.children@.len() && root.children@[i] == *en;
        crate::syntax::lemma_ends_ordered(*root, i, i);
    }
    if !kind_is(en, "enum_definition") {
        return Err(member_error(DeleteErrorKind::NotEnum, enum_name, member_name));
    }
    let body = match child_by_field_name(en, "body") {
        Some(b) => b,
        None => {
            return Err(member_error(DeleteErrorKind::EnumWithoutBody, enum_name, member_name));
        },
    };
    proof {
        let bi = choose|i: int| 0 <= i < en.children@.len() && en.children@[i] == *body;
        assert(tree_ok(source@, en.children@[bi]));
        crate::syntax::lemma_ends_ordered(*en, bi, bi);
    }
    Ok((en, body))
}

fn member_plan(source: &str, en: &SyntaxNode, body: &SyntaxNode, es: &Vec<usize>, j: usize, enum_name: &str, member_name: &str) -> (p: DeletePlan)
    requires
        tree_ok(source@, *body),
        ends_ordered(*body),
        es@.len() == enumerators(*body).len(),
        es@.len() > 1,
        j < es@.len(),
        forall|q: int| 0 <= q < es@.len() ==> es@[q] == enumerators(*body)[q],
        forall|q: int| 0 <= q < es@.len() ==> 0 <= #[trigger] es@[q] < body.children@.len(),
        forall|p: int, q: int| 0 <= p < q < es@.len() ==> es@[p] < es@[q],
    ensures
        member_deletion(source@, enum_name@, member_name@, *en, *body, j as int, p),
{
    let m = &body.children[es[j]];
    let (a, b) = removal_range(source, body, es, j);
    let new_source = cut_range(source, a, b);
    let starts = line_starts(source);
    let first = first_start_index(&starts, m.start_byte, true);
    let symbol = concat_strs(&[enum_name, ".", member_name]);
    proof {
        reveal_with_fuel(concat_views, 4);
    }
    DeletePlan {
        symbol,
        kind: String::from_str("enum_member"),
        removed_lines: LineRange { start: first as u32, end: first as u32 },
        new_source,
        own_rows: (en.start_row as u32, en.end_row as u32),
    }
}

/// What planning the deletion of an enum member gives: the plan of the
/// member that the lookup finds, or the lookup's error.
pub open spec fn member_outcome(
    src: Seq<char>,
    root: SyntaxNode,
    enum_name: Seq<char>,
    member_name: Seq<char>,
    r: Result<DeletePlan, DeleteError>,
) -> bool {
    match r {
        Ok(p) => match enum_lookup(root, src, enum_name, member_name) {
            Ok((en, body, j)) => member_deletion(src, enum_name, member_name, en, body, j, p),
            Err(_) => false,
        },
        Err(e) => {
            &&& enum_lookup(root, src, enum_name, member_name) == Err::<(SyntaxNode, SyntaxNode, int), DeleteErrorKind>(e.kind)
            &&& e.name@ == member_name
            &&& e.class@ == enum_name
            &&& e.line == 0
        },
    }
}

/// Plan the deletion of one member of a top-level enum: what it reports and
/// the source it leaves.
pub fn plan_delete_enum_member(source: &str, root: &SyntaxNode, enum_name: &str, member_name: &str) -> (r: Result<DeletePlan, DeleteError>)
    requires
        tree_ok(source@, *root),
        ends_ordered(*root),
    ensures
        member_outcome(source@, *root, enum_name@, member_name@, r),
{
    let (en, body) = match find_enum_body(root, source, enum_name, member_name) {
        Ok(x) => x,
        Err(e) => {
            return Err(e);
        },
    };
    let es = enumerator_list(body);
    proof {
        lemma_enumerator_indices(body.children@, body.children@.len() as int);
    }
    let j = match locate_member(body, &es, source, member_name) {
        Some(j) => j,
        None => {
            return Err(member_error(DeleteErrorKind::NoMember, enum_name, member_name));
        },
    };
    if es.len() == 1 {
        return Err(member_error(DeleteErrorKind::LastMember, enum_name, member_name));
    }
    Ok(member_plan(source, en, body, &es, j, enum_name, member_name))
}


/// The enum and member that a dotted name (`Enum.MEMBER`) names.
pub open spec fn member_named(name: Option<&str>) -> Option<(Seq<char>, Seq<char>)> {
    match name {
        Some(n) => dotted(n@),
        None => None,
    }
}

/// Plan a deletion in a source text, parsing it first: an enum member when
/// the name is dotted (`Enum.MEMBER`), else a declaration by name or 1-based
/// line. `None` when the parser gives no tree that fits the text.
pub fn plan_delete_in(source: &str, name: Option<&str>, line: Option<usize>, class: Option<&str>) -> (r: Option<Result<DeletePlan, DeleteError>>)
    requires
        line matches Some(l) ==> l >= 1,
    ensures
        r is None <==> fitting_tree(source@) is None,
        r matches Some(x) ==> match member_named(name) {
            Some((e, m)) => member_outcome(source@, fitting_tree(source@)->0, e, m, x),
            None => delete_outcome(source@, fitting_tree(source@)->0, name, line, class, x),
        },
{
    let root = match parse_fitting(source) {
        Some(t) => t,
        None => {
            return None;
        },
    };
    proof {
        crate::syntax::lemma_nested_ends_ordered(root);
    }
    let member = match name {
        Some(n) => split_enum_member(n),
        None => None,
    };
    match member {
        Some((e, m)) => Some(plan_delete_enum_member(source, &root, e.as_str(), m.as_str())),
        None => Some(plan_delete_symbol(source, &root, name, line, class)),
    }
}

// ── References and the decision ────────────────────────────────────────────

/// A reference found by the workspace search, with 0-based positions.
pub struct ReferenceHit {
    /// The referencing file, project-relative.
    pub file: String,
    /// The reference is in the file being edited.
    pub same_file: bool,
    pub line: u32,
    pub character: u32,
    pub end_line: u32,
    pub end_character: u32,
}

/// The reference lies in the deleted node itself.
pub open spec fn own_reference(h: ReferenceHit, rows: (u32, u32)) -> bool {
    h.same_file && rows.0 <= h.line && h.line <= rows.1
}

/// The reported location of a reference: 1-based lines and columns.
pub open spec fn location_of(h: ReferenceHit) -> (Seq<char>, int, int, int, int) {
    (h.file@, h.line + 1, h.character + 1, h.end_line + 1, h.end_character + 1)
}

/// The view of a reported location.
pub open spec fn location_view(l: RefLocation) -> (Seq<char>, int, int, int, int) {
    (l.file@, l.line as int, l.column as int, l.end_line as int, l.end_column as int)
}

/// The locations of the references outside the deleted node, in order.
pub open spec fn external_locations(hits: Seq<ReferenceHit>, rows: (u32, u32)) -> Seq<(Seq<char>, int, int, int, int)>
    decreases hits.len(),
{
    if hits.len() == 0 {
        Seq::empty()
    } else {
        let r = external_locations(hits.drop_last(), rows);
        if own_reference(hits.last(), rows) {
            r
        } else {
            r.push(location_of(hits.last()))
        }
    }
}

/// The positions fit one more than they are.
pub open spec fn hit_fits(h: ReferenceHit) -> bool {
    h.line < u32::MAX && h.character < u32::MAX && h.end_line < u32::MAX && h.end_character < u32::MAX
}

/// The references outside the deleted node (its own rows of the same file),
/// as reported locations.
pub fn external_references(hits: &[ReferenceHit], own_rows: (u32, u32)) -> (r: Vec<RefLocation>)
    requires
        forall|i: int| 0 <= i < hits@.len() ==> hit_fits(#[trigger] hits@[i]),
    ensures
        r@.map_values(|l: RefLocation| location_view(l)) == external_locations(hits@, own_rows),
{
    let mut r: Vec<RefLocation> = Vec::new();
    let mut i: usize = 0;
    while i < hits.len()
        invariant
            i <= hits@.len(),
            forall|k: int| 0 <= k < hits@.len() ==> hit_fits(#[trigger] hits@[k]),
            r@.map_values(|l: RefLocation| location_view(l)) == external_locations(hits@.take(i as int), own_rows),
        decreases hits@.len() - i,
    {
        let ghost r0 = r@;
        assert(hits@.take(i + 1).drop_last() =~= hits@.take(i as int));
        let h = &hits[i];
        assert(hit_fits(hits@[i as int]));
        if !(h.same_file && own_rows.0 <= h.line && h.line <= own_rows.1) {
            let loc = RefLocation {
                file: String::from_str(h.file.as_str()),
                line: h.line + 1,
                column: h.character + 1,
                end_line: h.end_line + 1,
                end_column: h.end_character + 1,
            };
            r.push(loc);
            assert(r@.map_values(|l: RefLocation| location_view(l)) =~= r0.map_values(
                |l: RefLocation| location_view(l),
            ).push(location_of(hits@[i as int])));
        }
        i += 1;
    }
    assert(hits@.take(i as int) =~= hits@);
    r
}

/// Whether a deletion is written: not when outside references block it
/// (unless forced), and not on a dry run.
pub fn delete_applies(has_external_refs: bool, force: bool, dry_run: bool) -> (r: bool)
    ensures
        r == (!(has_external_refs && !force) && !dry_run),
{
    !(has_external_refs && !force) && !dry_run
}

} // verus!
