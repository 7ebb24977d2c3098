//! Move-file: find and rewrite the `res://` references to a moved file.
use vstd::prelude::*;

use crate::text::{
    chars_of, contains, extend, extend_str, lines, lines_of, matches_at, occurs_at, string_of,
};

verus! {

/// A reference to the moved file that is rewritten.
pub struct UpdatedReference {
    pub file: String,
    pub line: u32,
    pub old_path: String,
    pub new_path: String,
}

/// What a move-file run reports.
pub struct MoveFileOutput {
    pub from: String,
    pub to: String,
    pub applied: bool,
    pub updated_scripts: Vec<UpdatedReference>,
    pub updated_resources: Vec<UpdatedReference>,
    pub updated_autoload: Option<String>,
    pub warnings: Vec<String>,
}

/// The 1-based numbers of the lines, among the first `k`, that contain `pat`.
pub open spec fn lines_containing(ls: Seq<Seq<char>>, pat: Seq<char>, k: int) -> Seq<u32>
    decreases k,
{
    if k <= 0 || k > ls.len() {
        Seq::empty()
    } else {
        let r = lines_containing(ls, pat, k - 1);
        if contains(ls[k - 1], pat) {
            r.push(k as u32)
        } else {
            r
        }
    }
}

/// The 1-based numbers of the lines of `source` that contain `pat`.
pub open spec fn matching_lines(source: Seq<char>, pat: Seq<char>) -> Seq<u32> {
    lines_containing(lines(source), pat, lines(source).len() as int)
}

fn line_numbers_containing(source: &str, res_path: &str) -> (r: Vec<u32>)
    requires
        lines(source@).len() <= u32::MAX,
    ensures
        r@ == matching_lines(source@, res_path@),
{
    let s = chars_of(source);
    let p = chars_of(res_path);
    let ls = lines_of(&s);
    let mut r: Vec<u32> = Vec::new();
    let mut i: usize = 0;
    while i < ls.len()
        invariant
            i <= ls@.len(),
            ls@.len() == lines(source@).len(),
            ls@.len() <= u32::MAX,
            p@ == res_path@,
            forall|j: int| 0 <= j < ls@.len() ==> (#[trigger] ls@[j])@ == lines(source@)[j],
            r@ == lines_containing(lines(source@), res_path@, i as int),
        decreases ls@.len() - i,
    {
        if crate::text::has_sub(&ls[i], &p) {
            r.push((i + 1) as u32);
        }
        i += 1;
    }
    r
}

/// Find line numbers (1-based) where `res_path` appears in GDScript source
/// (preload, load, or extends "res://..." references).
pub fn find_res_path_references(source: &str, res_path: &str) -> (r: Vec<u32>)
    requires
        lines(source@).len() <= u32::MAX,
    ensures
        r@ == matching_lines(source@, res_path@),
{
    line_numbers_containing(source, res_path)
}

/// Find line numbers (1-based) where `res_path` appears in a resource file.
pub fn find_res_path_line_numbers(source: &str, res_path: &str) -> (r: Vec<u32>)
    requires
        lines(source@).len() <= u32::MAX,
    ensures
        r@ == matching_lines(source@, res_path@),
{
    line_numbers_containing(source, res_path)
}

/// The text from position `i` on with every occurrence of `pat`, taken left
/// to right without overlap, replaced by `rep` (`str::replace`).
pub open spec fn replaced_from(s: Seq<char>, pat: Seq<char>, rep: Seq<char>, i: int) -> Seq<char>
    decreases s.len() - i,
{
    if i < 0 || i >= s.len() {
        Seq::empty()
    } else if pat.len() > 0 && occurs_at(s, pat, i) {
        rep + replaced_from(s, pat, rep, i + pat.len())
    } else {
        seq![s[i]] + replaced_from(s, pat, rep, i + 1)
    }
}

/// `s.replace(pat, rep)` for a non-empty pattern.
pub fn replace_all(s: &str, pat: &str, rep: &str) -> (r: String)
    requires
        pat@.len() > 0,
    ensures
        r@ == replaced_from(s@, pat@, rep@, 0),
{
    let sc = chars_of(s);
    let pc = chars_of(pat);
    let rc = chars_of(rep);
    let mut out: Vec<char> = Vec::new();
    let mut i: usize = 0;
    while i < sc.len()
        invariant
            i <= sc@.len(),
            sc@ == s@,
            pc@ == pat@,
            rc@ == rep@,
            pat@.len() > 0,
            out@ + replaced_from(s@, pat@, rep@, i as int) == replaced_from(s@, pat@, rep@, 0),
        decreases sc@.len() - i,
    {
        let ghost o0 = out@;
        if matches_at(&sc, &pc, i) {
            extend(&mut out, &rc);
            assert(out@ + replaced_from(s@, pat@, rep@, i + pc@.len()) =~= o0 + replaced_from(
                s@,
                pat@,
                rep@,
                i as int,
            ));
            i += pc.len();
        } else {
            out.push(sc[i]);
            assert(out@ + replaced_from(s@, pat@, rep@, i + 1) =~= o0 + replaced_from(
                s@,
                pat@,
                rep@,
                i as int,
            ));
            i += 1;
        }
    }
    assert(out@ =~= replaced_from(s@, pat@, rep@, 0));
    string_of(&out)
}

/// `res://` followed by a project-relative path.
pub open spec fn res_path(rel: Seq<char>) -> Seq<char> {
    "res://"@ + rel
}

/// The `res://` path of a project-relative path.
pub fn to_res_path(rel: &str) -> (r: String)
    ensures
        r@ == res_path(rel@),
{
    let mut v: Vec<char> = Vec::new();
    extend_str(&mut v, "res://");
    extend_str(&mut v, rel);
    string_of(&v)
}

/// The view of a reference record.
pub open spec fn record_view(u: UpdatedReference) -> (Seq<char>, u32, Seq<char>, Seq<char>) {
    (u.file@, u.line, u.old_path@, u.new_path@)
}

/// The updated-reference records for the lines of a file that name `old_res`:
/// one per such line, in order.
pub fn references_in(file: &str, source: &str, old_res: &str, new_res: &str) -> (r: Vec<UpdatedReference>)
    requires
        lines(source@).len() <= u32::MAX,
    ensures
        r@.len() == matching_lines(source@, old_res@).len(),
        forall|j: int|
            0 <= j < r@.len() ==> record_view(#[trigger] r@[j]) == (
                file@,
                matching_lines(source@, old_res@)[j],
                old_res@,
                new_res@,
            ),
{
    let nums = find_res_path_references(source, old_res);
    let mut r: Vec<UpdatedReference> = Vec::new();
    let mut i: usize = 0;
    while i < nums.len()
        invariant
            i <= nums@.len(),
            nums@ == matching_lines(source@, old_res@),
            r@.len() == i,
            forall|j: int|
                0 <= j < i ==> record_view(#[trigger] r@[j]) == (file@, nums@[j], old_res@, new_res@),
        decreases nums@.len() - i,
    {
        r.push(
            UpdatedReference {
                file: String::from_str(file),
                line: nums[i],
                old_path: String::from_str(old_res),
                new_path: String::from_str(new_res),
            },
        );
        i += 1;
    }
    r
}

/// The file name (after the last `/`) has the extension `gd`: it holds a dot
/// that is not its first character, and `gd` follows the last dot.
pub open spec fn gd_extension(path: Seq<char>) -> bool {
    let n = path.len() as int;
    n >= 4 && path[n - 3] == '.' && path[n - 2] == 'g' && path[n - 1] == 'd' && path[n - 4] != '/'
}

/// The path names a `.gd` file.
pub fn has_gd_extension(path: &str) -> (r: bool)
    ensures
        r == gd_extension(path@),
{
    let p = chars_of(path);
    let n = p.len();
    if n < 4 {
        return false;
    }
    let k = n - 3;
    p[k] == '.' && p[k + 1] == 'g' && p[k + 2] == 'd' && p[k - 1] != '/'
}

/// The warnings of a move: a `.gd` file with no static reference may be
/// loaded dynamically.
pub open spec fn move_warnings(from_rel: Seq<char>, total_refs: nat) -> Seq<Seq<char>> {
    if gd_extension(from_rel) && total_refs == 0 {
        seq!["no static references found; check for dynamic load() calls"@]
    } else {
        Seq::empty()
    }
}

/// The warnings of a move.
pub fn move_file_warnings(from_rel: &str, total_refs: usize) -> (r: Vec<String>)
    ensures
        r@.map_values(|w: String| w@) == move_warnings(from_rel@, total_refs as nat),
{
    let mut r: Vec<String> = Vec::new();
    if has_gd_extension(from_rel) && total_refs == 0 {
        r.push(String::from_str("no static references found; check for dynamic load() calls"));
        assert(r@.map_values(|w: String| w@) =~= move_warnings(from_rel@, total_refs as nat));
    } else {
        assert(r@.map_values(|w: String| w@) =~= move_warnings(from_rel@, total_refs as nat));
    }
    r
}

} // verus!
