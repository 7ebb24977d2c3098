//! Bulk-rename: several symbol renames in one run.
use vstd::prelude::*;

use crate::parse::{fitting_tree, parse_fitting};
use crate::refactor::{named_decl, str_eq};
use crate::syntax::{SyntaxNode, child, field_child, kind_is, tree_ok};
use crate::text::{concat_strs, concat_views};

verus! {

/// What a bulk-rename run reports.
pub struct BulkRenameOutput {
    pub renames: Vec<BulkRenameEntry>,
    pub skipped: Vec<BulkRenameSkipped>,
    pub files_modified: u32,
    pub file: String,
    pub applied: bool,
}

/// One rename that was made.
pub struct BulkRenameEntry {
    pub old_name: String,
    pub new_name: String,
    pub occurrences: u32,
}

/// One rename that was skipped, and why.
pub struct BulkRenameSkipped {
    pub old_name: String,
    pub new_name: String,
    pub reason: String,
}

/// Where the rename of `old` starts: the 0-based row and column of the name
/// of its top-level declaration; or why the rename is skipped.
pub open spec fn rename_start(root: SyntaxNode, src: Seq<char>, old: Seq<char>) -> Result<(u32, u32), Seq<char>> {
    match named_decl(root, src, old) {
        None => Err("symbol '"@ + old + "' not found"@),
        Some(d) => if d.kind@ == "constructor_definition"@ {
            Err("cannot rename constructor (_init)"@)
        } else {
            let name_node = if d.kind@ == "class_name_statement"@ {
                child(d, 1)
            } else {
                field_child(d, "name"@)
            };
            match name_node {
                None => Err("cannot determine symbol position"@),
                Some(n) => Ok((n.start_row as u32, n.start_column as u32)),
            }
        },
    }
}

/// Find where renaming `old_name` starts, or the reason it is skipped.
pub fn rename_position(root: &SyntaxNode, source: &str, old_name: &str) -> (r: Result<(u32, u32), String>)
    requires
        tree_ok(source@, *root),
    ensures
        match r {
            Ok(p) => rename_start(*root, source@, old_name@) == Ok::<_, Seq<char>>(p),
            Err(m) => rename_start(*root, source@, old_name@) == Err::<(u32, u32), _>(m@),
        },
{
    let d = match crate::refactor::find_top_decl(root, source, old_name) {
        Some(d) => d,
        None => {
            proof {
                reveal_with_fuel(concat_views, 4);
            }
            return Err(concat_strs(&["symbol '", old_name, "' not found"]));
        },
    };
    if kind_is(d, "constructor_definition") {
        return Err(String::from_str("cannot rename constructor (_init)"));
    }
    let name_node = if kind_is(d, "class_name_statement") {
        if d.children.len() > 1 {
            Some(&d.children[1])
        } else {
            None
        }
    } else {
        crate::syntax::child_by_field_name(d, "name")
    };
    match name_node {
        None => Err(String::from_str("cannot determine symbol position")),
        Some(n) => Ok((n.start_row as u32, n.start_column as u32)),
    }
}

/// Where renaming `old_name` starts in a source text, parsing it first:
/// `None` when the parser gives no tree that fits the text.
pub fn rename_position_in(source: &str, old_name: &str) -> (r: Option<Result<(u32, u32), String>>)
    ensures
        r is None <==> fitting_tree(source@) is None,
        r matches Some(x) ==> match x {
            Ok(p) => rename_start(fitting_tree(source@)->0, source@, old_name@) == Ok::<_, Seq<char>>(p),
            Err(m) => rename_start(fitting_tree(source@)->0, source@, old_name@) == Err::<(u32, u32), _>(m@),
        },
{
    match parse_fitting(source) {
        Some(root) => Some(rename_position(&root, source, old_name)),
        None => None,
    }
}

/// Why a rename found no symbol to rename at its position.
pub fn no_renameable_symbol(old_name: &str) -> (r: String)
    ensures
        r@ == "no renameable symbol '"@ + old_name@ + "' found"@,
{
    proof {
        reveal_with_fuel(concat_views, 4);
    }
    concat_strs(&["no renameable symbol '", old_name, "' found"])
}

/// The occurrences a rename edits: the sum of each file's edit count, each
/// taken as a `u32`.
pub open spec fn occurrence_sum(counts: Seq<usize>) -> int
    decreases counts.len(),
{
    if counts.len() == 0 {
        0
    } else {
        occurrence_sum(counts.drop_last()) + (counts.last() as u32) as int
    }
}

/// Count the occurrences a rename edits (a total past `u32::MAX` overflows).
pub fn count_occurrences(counts: &[usize]) -> (r: u32)
    requires
        forall|k: int| 0 <= k <= counts@.len() ==> occurrence_sum(#[trigger] counts@.take(k)) <= u32::MAX,
    ensures
        r == occurrence_sum(counts@),
{
    let mut total: u32 = 0;
    let mut i: usize = 0;
    while i < counts.len()
        invariant
            i <= counts@.len(),
            total == occurrence_sum(counts@.take(i as int)),
            forall|k: int| 0 <= k <= counts@.len() ==> occurrence_sum(#[trigger] counts@.take(k)) <= u32::MAX,
        decreases counts@.len() - i,
    {
        assert(counts@.take(i + 1).drop_last() =~= counts@.take(i as int));
        assert(occurrence_sum(counts@.take(i + 1)) <= u32::MAX);
        total = total + counts[i] as u32;
        i += 1;
    }
    assert(counts@.take(i as int) =~= counts@);
    total
}

/// The number of distinct files among those a run modified.
pub open spec fn distinct_files(fs: Seq<Seq<char>>) -> nat
    decreases fs.len(),
{
    if fs.len() == 0 {
        0
    } else {
        distinct_files(fs.drop_last()) + if fs.drop_last().contains(fs.last()) {
            0nat
        } else {
            1nat
        }
    }
}

/// Count the distinct files a run modified.
pub fn count_distinct_files(files: &[String]) -> (r: usize)
    ensures
        r == distinct_files(files@.map_values(|f: String| f@)),
{
    let ghost fs = files@.map_values(|f: String| f@);
    let mut n: usize = 0;
    let mut i: usize = 0;
    while i < files.len()
        invariant
            i <= files@.len(),
            fs == files@.map_values(|f: String| f@),
            n == distinct_files(fs.take(i as int)),
            n <= i,
        decreases files@.len() - i,
    {
        assert(fs.take(i + 1).drop_last() =~= fs.take(i as int));
        let mut seen = false;
        let mut j: usize = 0;
        while j < i
            invariant
                j <= i < files@.len(),
                fs == files@.map_values(|f: String| f@),
                seen == exists|k: int| 0 <= k < j && fs[k] == fs[i as int],
            decreases i - j,
        {
            let same = str_eq(files[j].as_str(), files[i].as_str());
            assert(same == (fs[j as int] == fs[i as int]));
            if same {
                seen = true;
            }
            proof {
                if !same && !(exists|k: int| 0 <= k < j && fs[k] == fs[i as int]) {
                    assert forall|k: int| 0 <= k < j + 1 implies fs[k] != fs[i as int] by {
                        if k == j {
                        }
                    }
                }
            }
            j += 1;
        }
        proof {
            if seen {
                let k = choose|k: int| 0 <= k < i && fs[k] == fs[i as int];
                assert(fs.take(i as int)[k] == fs[i as int]);
            }
            if fs.take(i as int).contains(fs[i as int]) {
                let k = choose|k: int| 0 <= k < i && fs.take(i as int)[k] == fs[i as int];
                assert(fs[k] == fs[i as int]);
            }
        }
        if !seen {
            n += 1;
        }
        i += 1;
    }
    assert(fs.take(i as int) =~= fs);
    n
}

/// The occurrences fit a `u32` at every step of the count.
pub open spec fn occurrences_fit(counts: Seq<usize>) -> bool {
    forall|k: int| 0 <= k <= counts.len() ==> occurrence_sum(#[trigger] counts.take(k)) <= u32::MAX
}

fn count_checked(counts: &[usize]) -> (r: Option<u32>)
    ensures
        match r {
            Some(t) => occurrences_fit(counts@) && t == occurrence_sum(counts@),
            None => !occurrences_fit(counts@),
        },
{
    let mut total: u32 = 0;
    let mut i: usize = 0;
    assert(counts@.take(0) =~= Seq::<usize>::empty());
    while i < counts.len()
        invariant
            i <= counts@.len(),
            total == occurrence_sum(counts@.take(i as int)),
            forall|k: int| 0 <= k <= i ==> occurrence_sum(#[trigger] counts@.take(k)) <= u32::MAX,
        decreases counts@.len() - i,
    {
        assert(counts@.take(i + 1).drop_last() =~= counts@.take(i as int));
        let c = counts[i] as u32;
        match total.checked_add(c) {
            Some(t) => {
                total = t;
            },
            None => {
                proof {
                    assert(occurrence_sum(counts@.take(i + 1)) > u32::MAX);
                }
                return None;
            },
        }
        i += 1;
    }
    assert(counts@.take(i as int) =~= counts@);
    proof {
        assert forall|k: int| 0 <= k <= counts@.len() implies occurrence_sum(#[trigger] counts@.take(k)) <= u32::MAX by {
            assert(k <= i);
        }
    }
    Some(total)
}

/// What one pair of a bulk-rename run records.
pub enum RenameRecord {
    Renamed(BulkRenameEntry),
    Skipped(BulkRenameSkipped),
}

/// Record one pair of a bulk-rename run, from where its rename starts (or
/// why it has no start) and the edit counts per file that the renamer made
/// there (`None` when it found nothing to rename): skipped with the reason,
/// skipped as not renameable, or made with the occurrences it edited.
/// `None` when that count passes `u32::MAX`.
pub fn record_rename(old_name: &str, new_name: &str, start: &Result<(u32, u32), String>, counts: Option<&[usize]>) -> (r: Option<RenameRecord>)
    ensures
        match start {
            Err(reason) => r matches Some(RenameRecord::Skipped(k)) && k.old_name@ == old_name@ && k.new_name@ == new_name@
                && k.reason@ == reason@,
            Ok(_) => match counts {
                None => r matches Some(RenameRecord::Skipped(k)) && k.old_name@ == old_name@ && k.new_name@ == new_name@
                    && k.reason@ == "no renameable symbol '"@ + old_name@ + "' found"@,
                Some(cs) => if occurrences_fit(cs@) {
                    r matches Some(RenameRecord::Renamed(e)) && e.old_name@ == old_name@ && e.new_name@ == new_name@
                        && e.occurrences == occurrence_sum(cs@)
                } else {
                    r is None
                },
            },
        },
{
    match start {
        Err(reason) => Some(
            RenameRecord::Skipped(
                BulkRenameSkipped {
                    old_name: String::from_str(old_name),
                    new_name: String::from_str(new_name),
                    reason: reason.clone(),
                },
            ),
        ),
        Ok(_) => match counts {
            None => Some(
                RenameRecord::Skipped(
                    BulkRenameSkipped {
                        old_name: String::from_str(old_name),
                        new_name: String::from_str(new_name),
                        reason: no_renameable_symbol(old_name),
                    },
                ),
            ),
            Some(cs) => match count_checked(cs) {
                Some(n) => Some(
                    RenameRecord::Renamed(
                        BulkRenameEntry { old_name: String::from_str(old_name), new_name: String::from_str(new_name), occurrences: n },
                    ),
                ),
                None => None,
            },
        },
    }
}

} // verus!
