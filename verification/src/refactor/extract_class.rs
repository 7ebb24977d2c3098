//! Extract-class: move symbols of a script into a new script.
use vstd::prelude::*;
use vstd::utf8::encode_utf8;

use crate::edits::{apply_edits, edit_views, edits_desc, edits_valid, applied, sort_edits_desc};
use crate::refactor::delete_symbol::{ReferenceHit, rows_within};
use crate::refactor::inline_method::string_texts;
use crate::refactor::move_symbol::{char_texts, spacing, strictly_sorted};
use crate::refactor::{
    collapse, decl_by_name_index, decl_name, full_range, is_decl_kind, kind_name, named_decl,
};
use crate::syntax::{SyntaxNode, text_between, tree_ok};
use crate::text::{chars_of, concat_strs, concat_views, decimal, join, opt_view, string_of};

use crate::parse::{fitting_tree, parse_fitting};

verus! {

/// What an extract-class run reports.
pub struct ExtractClassOutput {
    pub extracted: Vec<ExtractedSymbol>,
    pub from: String,
    pub to: String,
    pub applied: bool,
    pub warnings: Vec<String>,
}

/// A symbol moved to the new script.
pub struct ExtractedSymbol {
    pub name: String,
    pub kind: String,
}

/// A symbol to move: its name, kind name, the byte range of its
/// declaration (with attached comments and trailing newline) and that text.
pub struct ClassExtraction {
    pub name: String,
    pub kind: String,
    pub start: usize,
    pub end: usize,
    pub text: String,
}

/// A symbol to move as plain values.
pub open spec fn extraction_view(e: ClassExtraction) -> (Seq<char>, Seq<char>, int, int, Seq<char>) {
    (e.name@, e.kind@, e.start as int, e.end as int, e.text@)
}

/// The declaration of each name, in order, or the names not found.
pub open spec fn extractions_of(root: SyntaxNode, src: Seq<char>, names: Seq<Seq<char>>) -> Result<Seq<(Seq<char>, Seq<char>, int, int, Seq<char>)>, Seq<char>> {
    let missing = names.filter(|n: Seq<char>| named_decl(root, src, n) is None);
    if missing.len() > 0 {
        Err("symbols not found: "@ + join(missing, ", "@))
    } else if names.len() == 0 {
        Err("no symbols specified"@)
    } else {
        Ok(
            names.map_values(
                |n: Seq<char>|
                    {
                        let d = named_decl(root, src, n)->0;
                        let (a, b) = full_range(src, d);
                        (n, kind_name(d.kind@), a as int, b as int, text_between(src, a as int, b as int))
                    },
            ),
        )
    }
}

/// Find the declarations to move.
#[verifier::rlimit(60)]
pub fn find_extractions(root: &SyntaxNode, source: &str, names: &[String]) -> (r: Result<Vec<ClassExtraction>, String>)
    requires
        tree_ok(source@, *root),
        rows_within(source@, *root),
    ensures
        match r {
            Ok(v) => extractions_of(*root, source@, string_texts(names@)) == Ok::<_, Seq<char>>(
                v@.map_values(|e: ClassExtraction| extraction_view(e)),
            ),
            Err(m) => extractions_of(*root, source@, string_texts(names@)) == Err::<
                Seq<(Seq<char>, Seq<char>, int, int, Seq<char>)>,
                _,
            >(m@),
        },
{
    let ghost nv = string_texts(names@);
    let ghost f = |n: Seq<char>| named_decl(*root, source@, n) is None;
    let mut out: Vec<ClassExtraction> = Vec::new();
    let mut missing: Vec<Vec<char>> = Vec::new();
    let mut i: usize = 0;
    let total = source.as_bytes().len();
    proof {
        vstd::utf8::encode_utf8_valid_utf8(source@);
    }
    while i < names.len()
        invariant
            i <= names@.len(),
            encode_utf8(source@).len() <= usize::MAX,
            nv == string_texts(names@),
            f == (|n: Seq<char>| named_decl(*root, source@, n) is None),
            tree_ok(source@, *root),
            rows_within(source@, *root),
            char_texts(missing@) == nv.take(i as int).filter(f),
            missing@.len() == 0 ==> out@.map_values(|e: ClassExtraction| extraction_view(e)) == nv.take(
                i as int,
            ).map_values(
                |n: Seq<char>|
                    {
                        let d = named_decl(*root, source@, n)->0;
                        let (a, b) = full_range(source@, d);
                        (n, kind_name(d.kind@), a as int, b as int, text_between(source@, a as int, b as int))
                    },
            ),
        decreases names@.len() - i,
    {
        assert(nv.take(i + 1) =~= nv.take(i as int).push(names@[i as int]@));
        assert(nv.take(i + 1).drop_last() =~= nv.take(i as int));
        proof {
            reveal(Seq::filter);
        }
        let ghost fl = nv.take(i + 1).filter(f);
        assert(fl == if f(names@[i as int]@) {
            nv.take(i as int).filter(f).push(names@[i as int]@)
        } else {
            nv.take(i as int).filter(f)
        });
        match crate::refactor::find_top_decl(root, source, names[i].as_str()) {
            None => {
                let ghost prev = char_texts(missing@);
                missing.push(chars_of(names[i].as_str()));
                assert(char_texts(missing@) =~= prev.push(names@[i as int]@));
            },
            Some(d) => {
                let ghost j = choose|j: int| 0 <= j < root.children@.len() && root.children@[j] == *d;
                assert(rows_within(source@, root.children@[j]));
                proof {
                    crate::refactor::delete_symbol::lemma_full_range_spans(source@, *d);
                }
                let kind = crate::refactor::declaration_kind_str(d.kind.as_str());
                let (a, b) = crate::refactor::declaration_full_range(d, source);
                let text = crate::syntax::slice_str(source, a, b);
                let ghost prev = out@.map_values(|e: ClassExtraction| extraction_view(e));
                out.push(ClassExtraction { name: String::from_str(names[i].as_str()), kind: String::from_str(kind), start: a, end: b, text });
                assert(out@.map_values(|e: ClassExtraction| extraction_view(e)) =~= prev.push(extraction_view(out@.last())));
            },
        }
        i += 1;
    }
    assert(nv.take(i as int) =~= nv);
    if missing.len() > 0 {
        let sep = chars_of(", ");
        let joined = string_of(&crate::text::join_lines(&missing, &sep));
        let m = concat_strs(&["symbols not found: ", joined.as_str()]);
        proof {
            reveal_with_fuel(concat_views, 3);
            assert(missing@.map_values(|v: Vec<char>| v@) == char_texts(missing@));
        }
        return Err(m);
    }
    if names.len() == 0 {
        let m = concat_strs(&["no symbols specified"]);
        proof {
            reveal_with_fuel(concat_views, 2);
        }
        return Err(m);
    }
    Ok(out)
}

/// The first moved name that the target file already declares.
pub open spec fn target_conflict(troot: SyntaxNode, tsrc: Seq<char>, names: Seq<Seq<char>>) -> Option<Seq<char>>
    decreases names.len(),
{
    if names.len() == 0 {
        None
    } else {
        match target_conflict(troot, tsrc, names.drop_last()) {
            Some(n) => Some(n),
            None => if named_decl(troot, tsrc, names.last()) is Some {
                Some(names.last())
            } else {
                None
            },
        }
    }
}

/// The names of the symbols to move.
pub open spec fn moved_names(v: Seq<ClassExtraction>) -> Seq<Seq<char>> {
    v.map_values(|e: ClassExtraction| e.name@)
}

/// The message refusing a target that already declares `name`.
fn conflict_message(name: &str) -> (m: String)
    ensures
        m@ == "target already contains a declaration named '"@ + name@ + "'"@,
{
    proof {
        reveal_with_fuel(concat_views, 4);
    }
    concat_strs(&["target already contains a declaration named '", name, "'"])
}

/// Refuse a target that already declares one of the moved names.
#[verifier::rlimit(40)]
pub fn check_target_conflicts(target_root: &SyntaxNode, target_source: &str, ex: &[ClassExtraction]) -> (r: Result<(), String>)
    requires
        tree_ok(target_source@, *target_root),
    ensures
        match r {
            Ok(()) => target_conflict(*target_root, target_source@, moved_names(ex@)) is None,
            Err(m) => target_conflict(*target_root, target_source@, moved_names(ex@)) matches Some(n) && m@
                == "target already contains a declaration named '"@ + n + "'"@,
        },
{
    let ghost nv = moved_names(ex@);
    let mut i: usize = 0;
    while i < ex.len()
        invariant
            i <= ex@.len(),
            nv == moved_names(ex@),
            tree_ok(target_source@, *target_root),
            target_conflict(*target_root, target_source@, nv.take(i as int)) is None,
        decreases ex@.len() - i,
    {
        assert(nv.take(i + 1).drop_last() =~= nv.take(i as int));
        if crate::refactor::find_top_decl(target_root, target_source, ex[i].name.as_str()).is_some() {
            let m = conflict_message(ex[i].name.as_str());
            proof {
                lemma_conflict_found(*target_root, target_source@, nv, i + 1);
            }
            return Err(m);
        }
        i += 1;
    }
    assert(nv.take(i as int) =~= nv);
    Ok(())
}

proof fn lemma_conflict_found(troot: SyntaxNode, tsrc: Seq<char>, names: Seq<Seq<char>>, k: int)
    requires
        0 <= k <= names.len(),
        target_conflict(troot, tsrc, names.take(k)) is Some,
    ensures
        target_conflict(troot, tsrc, names) == target_conflict(troot, tsrc, names.take(k)),
    decreases names.len() - k,
{
    if k < names.len() {
        assert(names.take(k + 1).drop_last() =~= names.take(k));
        lemma_conflict_found(troot, tsrc, names, k + 1);
    } else {
        assert(names.take(k) =~= names);
    }
}

/// The first of the first `k` top-level declarations, staying in the file,
/// whose rows hold `line`: its name.
pub open spec fn staying_decl(cs: Seq<SyntaxNode>, src: Seq<char>, moved: Seq<Seq<char>>, line: int, k: int) -> Option<Seq<char>>
    decreases k,
{
    if k <= 0 || k > cs.len() {
        None
    } else {
        match staying_decl(cs, src, moved, line, k - 1) {
            Some(n) => Some(n),
            None => {
                let c = cs[k - 1];
                if is_decl_kind(c.kind@) && (decl_name(c, src) matches Some(dn) && !moved.contains(dn))
                    && c.start_row <= line <= c.end_row {
                    decl_name(c, src)
                } else {
                    None
                }
            },
        }
    }
}

/// `'staying' (staying) references 'name' (moving)` for each reference in
/// the file from a declaration that stays.
pub open spec fn staying_warnings(root: SyntaxNode, src: Seq<char>, moved: Seq<Seq<char>>, name: Seq<char>, hits: Seq<ReferenceHit>) -> Seq<Seq<char>>
    decreases hits.len(),
{
    if hits.len() == 0 {
        Seq::empty()
    } else {
        staying_warnings(root, src, moved, name, hits.drop_last()) + if hits.last().same_file {
            match staying_decl(root.children@, src, moved, hits.last().line as int, root.children@.len() as int) {
                Some(dn) => seq!["'"@ + dn + "' (staying) references '"@ + name + "' (moving)"@],
                None => Seq::empty(),
            }
        } else {
            Seq::empty()
        }
    }
}

fn staying_decl_at(root: &SyntaxNode, source: &str, moved: &Vec<Vec<char>>, line: usize) -> (r: Option<String>)
    requires
        tree_ok(source@, *root),
    ensures
        opt_view(r) == staying_decl(root.children@, source@, char_texts(moved@), line as int, root.children@.len() as int),
{
    let mut k: usize = 0;
    while k < root.children.len()
        invariant
            k <= root.children@.len(),
            tree_ok(source@, *root),
            staying_decl(root.children@, source@, char_texts(moved@), line as int, k as int) is None,
        decreases root.children@.len() - k,
    {
        let c = &root.children[k];
        assert(tree_ok(source@, *c));
        if crate::refactor::is_declaration_kind(c.kind.as_str()) && c.start_row <= line && line <= c.end_row {
            match crate::refactor::get_declaration_name(c, source) {
                Some(dn) => {
                    let dc = chars_of(dn.as_str());
                    if !crate::refactor::extract_method::text_listed(moved, &dc) {
                        proof {
                            lemma_staying_found(root.children@, source@, char_texts(moved@), line as int, k + 1);
                        }
                        return Some(dn);
                    }
                },
                None => {},
            }
        }
        k += 1;
    }
    None
}

proof fn lemma_staying_found(cs: Seq<SyntaxNode>, src: Seq<char>, moved: Seq<Seq<char>>, line: int, k: int)
    requires
        0 <= k <= cs.len(),
        staying_decl(cs, src, moved, line, k) is Some,
    ensures
        staying_decl(cs, src, moved, line, cs.len() as int) == staying_decl(cs, src, moved, line, k),
    decreases cs.len() - k,
{
    if k < cs.len() {
        lemma_staying_found(cs, src, moved, line, k + 1);
    }
}

/// The warnings about references to `name` from declarations that stay.
pub fn staying_reference_warnings(root: &SyntaxNode, source: &str, moved: &Vec<Vec<char>>, name: &str, hits: &[ReferenceHit]) -> (r: Vec<String>)
    requires
        tree_ok(source@, *root),
    ensures
        string_texts(r@) == staying_warnings(*root, source@, char_texts(moved@), name@, hits@),
{
    let mut out: Vec<String> = Vec::new();
    let mut i: usize = 0;
    while i < hits.len()
        invariant
            i <= hits@.len(),
            tree_ok(source@, *root),
            string_texts(out@) == staying_warnings(*root, source@, char_texts(moved@), name@, hits@.take(i as int)),
        decreases hits@.len() - i,
    {
        assert(hits@.take(i + 1).drop_last() =~= hits@.take(i as int));
        let h = &hits[i];
        let ghost prev = string_texts(out@);
        if h.same_file {
            match staying_decl_at(root, source, moved, h.line as usize) {
                Some(dn) => {
                    let w = concat_strs(&["'", dn.as_str(), "' (staying) references '", name, "' (moving)"]);
                    proof {
                        reveal_with_fuel(concat_views, 6);
                    }
                    out.push(w);
                    assert(string_texts(out@) =~= prev.push(w@));
                },
                None => {},
            }
        }
        i += 1;
    }
    assert(hits@.take(i as int) =~= hits@);
    out
}

/// The number of references outside the file.
pub open spec fn cross_file_count(hits: Seq<ReferenceHit>) -> nat
    decreases hits.len(),
{
    if hits.len() == 0 {
        0
    } else {
        cross_file_count(hits.drop_last()) + if hits.last().same_file {
            0nat
        } else {
            1nat
        }
    }
}

/// The warning about references to a moved symbol from other files.
pub fn cross_file_warning(name: &str, hits: &[ReferenceHit]) -> (r: Option<String>)
    ensures
        opt_view(r) == if cross_file_count(hits@) > 0 {
            Some("'"@ + name@ + "' has "@ + decimal(cross_file_count(hits@)) + " cross-file reference(s) that may need updating"@)
        } else {
            None
        },
{
    let mut n: usize = 0;
    let mut i: usize = 0;
    while i < hits.len()
        invariant
            i <= hits@.len(),
            n == cross_file_count(hits@.take(i as int)),
            n <= i,
        decreases hits@.len() - i,
    {
        assert(hits@.take(i + 1).drop_last() =~= hits@.take(i as int));
        if !hits[i].same_file {
            n += 1;
        }
        i += 1;
    }
    assert(hits@.take(i as int) =~= hits@);
    if n == 0 {
        return None;
    }
    let d = crate::text::decimal_string(n);
    let w = concat_strs(&["'", name, "' has ", d.as_str(), " cross-file reference(s) that may need updating"]);
    proof {
        reveal_with_fuel(concat_views, 6);
    }
    Some(w)
}

/// The warnings sorted, each once.
pub fn sorted_warnings(ws: &[String]) -> (r: Vec<String>)
    ensures
        strictly_sorted(string_texts(r@)),
        string_texts(r@).to_set() == string_texts(ws@).to_set(),
{
    let mut all: Vec<Vec<char>> = Vec::new();
    let mut i: usize = 0;
    while i < ws.len()
        invariant
            i <= ws@.len(),
            char_texts(all@) == string_texts(ws@).take(i as int),
        decreases ws@.len() - i,
    {
        let ghost prev = char_texts(all@);
        all.push(chars_of(ws[i].as_str()));
        assert(char_texts(all@) =~= prev.push(ws@[i as int]@));
        assert(string_texts(ws@).take(i + 1) =~= string_texts(ws@).take(i as int).push(ws@[i as int]@));
        i += 1;
    }
    assert(string_texts(ws@).take(i as int) =~= string_texts(ws@));
    let sorted = crate::refactor::move_symbol::sort_unique(&all);
    let mut r: Vec<String> = Vec::new();
    let mut k: usize = 0;
    while k < sorted.len()
        invariant
            k <= sorted@.len(),
            string_texts(r@) == char_texts(sorted@).take(k as int),
        decreases sorted@.len() - k,
    {
        let ghost prev = string_texts(r@);
        r.push(string_of(&sorted[k]));
        assert(string_texts(r@) =~= prev.push(sorted@[k as int]@));
        assert(char_texts(sorted@).take(k + 1) =~= char_texts(sorted@).take(k as int).push(sorted@[k as int]@));
        k += 1;
    }
    assert(char_texts(sorted@).take(k as int) =~= char_texts(sorted@));
    r
}

/// The target file with each moved declaration appended, in order, after the
/// spacing its kind name asks for.
pub open spec fn target_with(target: Seq<char>, ex: Seq<ClassExtraction>) -> Seq<char>
    decreases ex.len(),
{
    if ex.len() == 0 {
        target
    } else {
        let t = target_with(target, ex.drop_last());
        t + spacing(ex.last().kind@, t) + ex.last().text@
    }
}

/// Find the declarations to extract in a source text, parsing it first:
/// `None` when the parser gives no tree that fits the text.
pub fn find_extractions_in(source: &str, names: &[String]) -> (r: Option<Result<Vec<ClassExtraction>, String>>)
    ensures
        r is None <==> fitting_tree(source@) is None,
        r matches Some(x) ==> match x {
            Ok(v) => extractions_of(fitting_tree(source@)->0, source@, string_texts(names@)) == Ok::<_, Seq<char>>(
                v@.map_values(|e: ClassExtraction| extraction_view(e)),
            ),
            Err(m) => extractions_of(fitting_tree(source@)->0, source@, string_texts(names@)) == Err::<
                Seq<(Seq<char>, Seq<char>, int, int, Seq<char>)>,
                _,
            >(m@),
        },
{
    match parse_fitting(source) {
        Some(root) => Some(find_extractions(&root, source, names)),
        None => None,
    }
}

/// Check a target text for declarations that the extraction would
/// duplicate, parsing it first: `None` when the parser gives no tree that
/// fits the text.
pub fn check_target_conflicts_in(target_source: &str, ex: &[ClassExtraction]) -> (r: Option<Result<(), String>>)
    ensures
        r is None <==> fitting_tree(target_source@) is None,
        r matches Some(x) ==> match x {
            Ok(()) => target_conflict(fitting_tree(target_source@)->0, target_source@, moved_names(ex@)) is None,
            Err(m) => target_conflict(fitting_tree(target_source@)->0, target_source@, moved_names(ex@)) matches Some(n)
                && m@ == "target already contains a declaration named '"@ + n + "'"@,
        },
{
    match parse_fitting(target_source) {
        Some(root) => Some(check_target_conflicts(&root, target_source, ex)),
        None => None,
    }
}

/// Append the moved declarations to the target file's text.
pub fn build_target(target: &str, ex: &[ClassExtraction]) -> (r: String)
    ensures
        r@ == target_with(target@, ex@),
{
    let mut t = String::from_str(target);
    let mut i: usize = 0;
    while i < ex.len()
        invariant
            i <= ex@.len(),
            t@ == target_with(target@, ex@.take(i as int)),
        decreases ex@.len() - i,
    {
        assert(ex@.take(i + 1).drop_last() =~= ex@.take(i as int));
        let sp = crate::refactor::move_symbol::insertion_spacing(ex[i].kind.as_str(), t.as_str());
        crate::text::push_str(&mut t, sp.as_str());
        crate::text::push_str(&mut t, ex[i].text.as_str());
        i += 1;
    }
    assert(ex@.take(i as int) =~= ex@);
    t
}

/// The removals of the moved declarations, as edits.
pub open spec fn removal_edits(ex: Seq<ClassExtraction>) -> Seq<(int, int, Seq<char>)> {
    ex.map_values(|e: ClassExtraction| (e.start as int, e.end as int, Seq::<char>::empty()))
}

/// The removals of the moved declarations, as edits.
pub fn removals(ex: &[ClassExtraction]) -> (r: Vec<(usize, usize, String)>)
    ensures
        edit_views(r@) == removal_edits(ex@),
{
    let mut out: Vec<(usize, usize, String)> = Vec::new();
    let mut i: usize = 0;
    while i < ex.len()
        invariant
            i <= ex@.len(),
            edit_views(out@) == removal_edits(ex@.take(i as int)),
        decreases ex@.len() - i,
    {
        let ghost prev = edit_views(out@);
        let e = String::new();
        assert(e@ =~= Seq::<char>::empty());
        out.push((ex[i].start, ex[i].end, e));
        assert(edit_views(out@) =~= prev.push((ex@[i as int].start as int, ex@[i as int].end as int, Seq::<char>::empty())));
        assert(ex@.take(i + 1) =~= ex@.take(i as int).push(ex@[i as int]));
        assert(removal_edits(ex@.take(i + 1)) =~= removal_edits(ex@.take(i as int)).push((ex@[i as int].start as int, ex@[i as int].end as int, Seq::<char>::empty())));
        i += 1;
    }
    assert(ex@.take(i as int) =~= ex@);
    out
}

/// The file with the moved declarations removed, last first, and runs of
/// blank lines collapsed.
pub fn remove_extracted(source: &str, ex: &[ClassExtraction]) -> (r: String)
    requires
        edits_valid(source@, edits_desc(removal_edits(ex@))),
    ensures
        r@ == collapse(applied(source@, edits_desc(removal_edits(ex@)))).0,
{
    let es = sort_edits_desc(removals(ex));
    let mut s = apply_edits(source, es.as_slice());
    crate::refactor::normalize_blank_lines(&mut s);
    s
}

/// Whether the moved declarations can be removed in turn without panicking.
pub fn removals_applicable(source: &str, ex: &[ClassExtraction]) -> (r: bool)
    ensures
        r == edits_valid(source@, edits_desc(removal_edits(ex@))),
{
    let es = sort_edits_desc(removals(ex));
    crate::edits::edits_applicable(source, es.as_slice())
}

} // verus!
