//! Properties that hold across the refactorings' building blocks.
use vstd::prelude::*;

use crate::refactor::collapse;
use crate::refactor::edit::{changed_lines, diff_count};
use crate::refactor::move_file::replaced_from;
use crate::refactor::change_signature::{ParamView, after_reorder, is_override, overrides_upto, param_changes, reorder_take};
use crate::refactor::convert_node_path::{Direction, converted_text, dollar_path, get_node_arg, path_needs_quotes};
use crate::refactor::convert_signal::{connect_call, connection_line, ready_with_line, with_connection};
use crate::refactor::invert_if::{flip_with, flipped, negated};
use crate::text::first_occurrence;
use crate::edits::{edits_desc, insert_edit_desc};
use crate::refactor::introduce_variable::{dedup, insert_asc, replacements_for, sorted_asc};
use crate::syntax::SyntaxNode;
use crate::refactor::encapsulate_field::{accessors, annotation_prefix, decl_head, type_text, value_text, with_declaration};
use crate::refactor::inline_variable::{usage_reps, usage_text};
use crate::refactor::extract_method::{CapturedVar, call_site};
use crate::refactor::inline_method::param_map;
use crate::text::{contains, lines, occurs_at, starts_with};

verus! {

// ── Blank-line normalisation ───────────────────────────────────────────────

/// The text ends with exactly `k` line feeds (or is all line feeds, `k` of them).
pub open spec fn ends_with_lfs(o: Seq<char>, k: nat) -> bool {
    &&& k <= o.len()
    &&& forall|j: int| o.len() - k <= j < o.len() ==> o[j] == '\n'
    &&& k < o.len() ==> o[o.len() - k - 1] != '\n'
}

/// No four line feeds in a row.
pub open spec fn no_long_lf_run(o: Seq<char>) -> bool {
    forall|i: int|
        0 <= i && i + 3 < o.len() ==> !(#[trigger] o[i] == '\n' && o[i + 1] == '\n' && o[i + 2] == '\n' && o[i
            + 3] == '\n')
}

proof fn lemma_collapse_shape(s: Seq<char>)
    ensures
        ({
            let (o, c) = collapse(s);
            &&& ends_with_lfs(o, if c <= 3 { c } else { 3 })
            &&& no_long_lf_run(o)
            &&& collapse(o) == (o, if c <= 3 { c } else { 3nat })
        }),
    decreases s.len(),
{
    if s.len() > 0 {
        let p = s.drop_last();
        lemma_collapse_shape(p);
        let (o0, c0) = collapse(p);
        let m0: nat = if c0 <= 3 { c0 } else { 3 };
        let (o, c) = collapse(s);
        if s.last() == '\n' {
            if c0 + 1 <= 3 {
                assert(o == o0.push('\n'));
                assert(o.drop_last() =~= o0);
                assert forall|i: int| 0 <= i && i + 3 < o.len() implies !(#[trigger] o[i] == '\n' && o[i + 1]
                    == '\n' && o[i + 2] == '\n' && o[i + 3] == '\n') by {
                    if i + 3 == o.len() - 1 {
                        assert(o0.len() - c0 - 1 >= i);
                        assert(o[o0.len() - c0 - 1] != '\n');
                    } else {
                        assert(o0[i] == o[i] && o0[i + 1] == o[i + 1] && o0[i + 2] == o[i + 2] && o0[i + 3] == o[i + 3]);
                    }
                }
            } else {
                assert(o == o0);
            }
        } else {
            assert(o == o0.push(s.last()));
            assert(o.drop_last() =~= o0);
            assert forall|i: int| 0 <= i && i + 3 < o.len() implies !(#[trigger] o[i] == '\n' && o[i + 1] == '\n'
                && o[i + 2] == '\n' && o[i + 3] == '\n') by {
                if i + 3 < o0.len() {
                    assert(o0[i] == o[i] && o0[i + 1] == o[i + 1] && o0[i + 2] == o[i + 2] && o0[i + 3] == o[i + 3]);
                }
            }
        }
    }
}

/// Normalising blank lines twice gives what normalising once gives.
pub proof fn lemma_normalize_idempotent(s: Seq<char>)
    ensures
        collapse(collapse(s).0).0 == collapse(s).0,
{
    lemma_collapse_shape(s);
}

/// After normalising, no run of four or more line feeds is left (no more
/// than two blank lines in a row).
pub proof fn lemma_normalize_caps_blank_lines(s: Seq<char>)
    ensures
        no_long_lf_run(collapse(s).0),
{
    lemma_collapse_shape(s);
}

// ── Line differences ───────────────────────────────────────────────────────

proof fn lemma_diff_count_same(a: Seq<Seq<char>>, n: nat)
    ensures
        diff_count(a, a, n) == 0,
    decreases n,
{
    if n > 0 {
        lemma_diff_count_same(a, (n - 1) as nat);
    }
}

/// A text differs from itself on no line.
pub proof fn lemma_no_change_no_diff(s: Seq<char>)
    ensures
        changed_lines(s, s) == 0,
{
    lemma_diff_count_same(lines(s), lines(s).len());
}

// ── Replacing a pattern ────────────────────────────────────────────────────

proof fn lemma_replace_self_from(s: Seq<char>, p: Seq<char>, i: int)
    requires
        0 <= i <= s.len(),
    ensures
        replaced_from(s, p, p, i) == s.skip(i),
    decreases s.len() - i,
{
    if i < s.len() {
        if p.len() > 0 && occurs_at(s, p, i) {
            lemma_replace_self_from(s, p, i + p.len());
            assert(s.skip(i) =~= s.subrange(i, i + p.len()) + s.skip(i + p.len()));
        } else {
            lemma_replace_self_from(s, p, i + 1);
            assert(s.skip(i) =~= seq![s[i]] + s.skip(i + 1));
        }
    } else {
        assert(s.skip(i) =~= Seq::<char>::empty());
    }
}

/// Replacing a pattern with itself leaves the text as it was.
pub proof fn lemma_replace_with_itself(s: Seq<char>, p: Seq<char>)
    ensures
        replaced_from(s, p, p, 0) == s,
{
    lemma_replace_self_from(s, p, 0);
    assert(s.skip(0) =~= s);
}

// ── Node paths ─────────────────────────────────────────────────────────────

/// Converting `get_node("path")` to the `$` form and reading the path of
/// that form gives the path back, unless the path needs no quotes and is
/// itself wrapped in double quotes.
pub proof fn lemma_dollar_form_round_trip(n: SyntaxNode, src: Seq<char>)
    requires
        get_node_arg(n, src) is Ok,
        ({
            let p = get_node_arg(n, src)->Ok_0;
            path_needs_quotes(p) || !(p.len() >= 2 && p[0] == '"' && p.last() == '"')
        }),
    ensures
        converted_text(n, src, Direction::ToDollar) is Ok,
        dollar_path(converted_text(n, src, Direction::ToDollar)->Ok_0) == get_node_arg(n, src)->Ok_0,
{
    reveal_strlit("$\"");
    reveal_strlit("\"");
    reveal_strlit("$");
    let p = get_node_arg(n, src)->Ok_0;
    let t = converted_text(n, src, Direction::ToDollar)->Ok_0;
    if path_needs_quotes(p) {
        assert(t =~= seq!['$', '"'] + p + seq!['"']);
        assert(t.drop_first() =~= seq!['"'] + p + seq!['"']);
        assert(t.drop_first().subrange(1, t.drop_first().len() - 1) =~= p);
    } else {
        assert(t =~= seq!['$'] + p);
        assert(t.drop_first() =~= p);
    }
}

// ── Signal connections ─────────────────────────────────────────────────────

proof fn lemma_contains_middle(x: Seq<char>, y: Seq<char>, z: Seq<char>)
    ensures
        contains(x + y + z, y),
{
    assert((x + y + z).subrange(x.len() as int, (x.len() + y.len()) as int) =~= y);
    assert(occurs_at(x + y + z, y, x.len() as int));
}

/// Once a connection line is appended to a scene, the scene holds it, so
/// appending the same connection again is refused.
pub proof fn lemma_appended_connection_present(src: Seq<char>, signal: Seq<char>, from: Seq<char>, to: Seq<char>, method: Seq<char>)
    ensures
        contains(with_connection(src, connection_line(signal, from, to, method)), connection_line(signal, from, to, method)),
{
    let line = connection_line(signal, from, to, method);
    let w = with_connection(src, line);
    let head = crate::text::trim_end(src) + if contains(src, "[connection"@) {
        "\n"@
    } else {
        "\n\n"@
    };
    assert(w =~= head + line + "\n"@);
    lemma_contains_middle(head, line, "\n"@);
}

proof fn lemma_inserted_line_found(src: Seq<char>, a: int, b: int, pre: Seq<char>, line: Seq<char>)
    ensures
        contains(crate::syntax::span_replaced(src, a, b, pre + line), line),
{
    let x = crate::syntax::text_between(src, 0, a) + pre;
    let z = crate::syntax::text_between(src, b, vstd::utf8::encode_utf8(src).len() as int);
    assert(crate::syntax::span_replaced(src, a, b, pre + line) =~= x + line + z);
    lemma_contains_middle(x, line, z);
}

/// Once a `.connect()` call is added to `_ready()`, the script holds it, so
/// the call is found when the connection is converted back.
pub proof fn lemma_added_connect_call_found(src: Seq<char>, root: SyntaxNode, from: Seq<char>, signal: Seq<char>, method: Seq<char>)
    requires
        ready_with_line(src, root, connect_call(from, signal, method)) is Ok,
    ensures
        contains(
            ready_with_line(src, root, connect_call(from, signal, method))->Ok_0,
            connect_call(from, signal, method),
        ),
{
    let line = connect_call(from, signal, method);
    match crate::refactor::convert_signal::ready_func(root, src) {
        Some(f) => match crate::syntax::field_child(f, "body"@) {
            Some(b) => {
                lemma_inserted_line_found(src, b.start_byte as int, b.end_byte as int, "\n\t"@, line);
                lemma_inserted_line_found(src, b.end_byte as int, b.end_byte as int, "\n\t"@, line);
            },
            None => {},
        },
        None => {
            let x = crate::text::trim_end(src) + "\nfunc _ready():\n\t"@;
            assert(crate::text::trim_end(src) + "\nfunc _ready():\n\t"@ + line + "\n"@ =~= x + line + "\n"@);
            lemma_contains_middle(x, line, "\n"@);
        },
    }
}

// ── Conditions ─────────────────────────────────────────────────────────────

/// Negating a plain operand twice (one that holds no comparison and does
/// not start with `not `) gives it back.
pub proof fn lemma_double_negation(t: Seq<char>)
    requires
        !starts_with(t, "not "@),
        flipped(t) is None,
    ensures
        negated(negated(t)) == t,
{
    reveal_strlit("not ");
    reveal_strlit("true");
    reveal_strlit("false");
    if t == "true"@ {
        assert("false"@.take(4)[0] == 'f');
        assert(!starts_with("false"@, "not "@));
        assert("false"@[0] != "true"@[0]);
    } else if t == "false"@ {
        assert("true"@.take(4)[0] == 't');
        assert(!starts_with("true"@, "not "@));
    } else {
        let u = "not "@ + t;
        assert(u.subrange(0, 4) =~= "not "@);
        assert(u.skip(4) =~= t);
    }
}

// ── Signature changes ──────────────────────────────────────────────────────

/// Asking for no change leaves the parameters as they are and renames nothing.
pub proof fn lemma_no_signature_change(ps: Seq<ParamView>)
    ensures
        param_changes(ps, Seq::empty(), Seq::empty(), Seq::empty(), None) == Ok::<
            (Seq<ParamView>, Seq<(Seq<char>, Seq<char>)>),
            Seq<char>,
        >((ps, Seq::empty())),
{
}

proof fn lemma_reorder_take_permutes(rest: Seq<ParamView>, ns: Seq<Seq<char>>)
    requires
        reorder_take(rest, ns) is Ok,
    ensures
        ({
            let (taken, left) = reorder_take(rest, ns)->Ok_0;
            (taken + left).to_multiset() == rest.to_multiset()
        }),
    decreases ns.len(),
{
    broadcast use vstd::seq_lib::group_seq_properties, vstd::multiset::group_multiset_axioms;

    if ns.len() == 0 {
        assert(Seq::<ParamView>::empty() + rest =~= rest);
    } else {
        lemma_reorder_take_permutes(rest, ns.drop_last());
        let (taken, left) = reorder_take(rest, ns.drop_last())->Ok_0;
        let i = crate::refactor::change_signature::pos_of(left, ns.last())->Some_0;
        lemma_pos_in_range(left, ns.last(), left.len() as int);
        let x = left[i];
        vstd::seq_lib::lemma_multiset_commutative(taken, left);
        vstd::seq_lib::lemma_multiset_commutative(taken.push(x), left.remove(i));
        left.to_multiset_ensures();
        taken.to_multiset_ensures();
        assert(left.remove(i).to_multiset() =~= left.to_multiset().remove(x));
        assert(taken.push(x).to_multiset() =~= taken.to_multiset().insert(x));
        assert(left.to_multiset().count(x) > 0) by {
            assert(left.contains(x));
        }
        assert(taken.to_multiset().insert(x).add(left.to_multiset().remove(x)) =~= taken.to_multiset().add(
            left.to_multiset(),
        ));
    }
}

proof fn lemma_pos_in_range(ps: Seq<ParamView>, n: Seq<char>, k: int)
    ensures
        crate::refactor::change_signature::pos_in(ps, n, k) matches Some(i) ==> 0 <= i < k && i < ps.len(),
    decreases k,
{
    if k > 0 && k <= ps.len() {
        lemma_pos_in_range(ps, n, k - 1);
    }
}

/// Reordering parameters keeps the same parameters, each as often as before.
pub proof fn lemma_reorder_keeps_parameters(ps: Seq<ParamView>, reorder: Option<Seq<char>>)
    requires
        after_reorder(ps, reorder) is Ok,
    ensures
        after_reorder(ps, reorder)->Ok_0.to_multiset() == ps.to_multiset(),
{
    match reorder {
        None => {},
        Some(r) => {
            lemma_reorder_take_permutes(ps, crate::refactor::change_signature::reorder_names(r));
        },
    }
}

// ── Edit order ─────────────────────────────────────────────────────────────

/// Edits ordered by start, last first.
pub open spec fn starts_descending(s: Seq<(int, int, Seq<char>)>) -> bool {
    forall|i: int, j: int| 0 <= i < j < s.len() ==> s[i].0 >= s[j].0
}

proof fn lemma_insert_edit_desc(t: Seq<(int, int, Seq<char>)>, x: (int, int, Seq<char>))
    requires
        starts_descending(t),
    ensures
        starts_descending(insert_edit_desc(t, x)),
        insert_edit_desc(t, x).to_multiset() == t.to_multiset().insert(x),
        insert_edit_desc(t, x).len() == t.len() + 1,
        forall|k: int|
            0 <= k < insert_edit_desc(t, x).len() ==> #[trigger] insert_edit_desc(t, x)[k] == x || t.contains(
                insert_edit_desc(t, x)[k],
            ),
    decreases t.len(),
{
    broadcast use vstd::seq_lib::group_seq_properties, vstd::multiset::group_multiset_axioms;

    let r = insert_edit_desc(t, x);
    if t.len() == 0 {
        assert(r =~= seq![x]);
        assert(seq![x].to_multiset() =~= Seq::<(int, int, Seq<char>)>::empty().push(x).to_multiset()) by {
            assert(seq![x] =~= Seq::<(int, int, Seq<char>)>::empty().push(x));
        }
        Seq::<(int, int, Seq<char>)>::empty().to_multiset_ensures();
    } else if t[0].0 >= x.0 {
        let rest = t.drop_first();
        assert forall|i: int, j: int| 0 <= i < j < rest.len() implies rest[i].0 >= rest[j].0 by {
            assert(rest[i] == t[i + 1] && rest[j] == t[j + 1]);
        }
        lemma_insert_edit_desc(rest, x);
        let ri = insert_edit_desc(rest, x);
        assert(r == seq![t[0]] + ri);
        assert forall|i: int, j: int| 0 <= i < j < r.len() implies r[i].0 >= r[j].0 by {
            if i == 0 {
                assert(r[j] == ri[j - 1]);
                if ri[j - 1] != x {
                    assert(rest.contains(ri[j - 1]));
                    let k = choose|k: int| 0 <= k < rest.len() && rest[k] == ri[j - 1];
                    assert(rest[k] == t[k + 1]);
                }
            } else {
                assert(r[i] == ri[i - 1] && r[j] == ri[j - 1]);
            }
        }
        assert forall|k: int| 0 <= k < r.len() implies #[trigger] r[k] == x || t.contains(r[k]) by {
            if k == 0 {
                assert(t[0] == r[0]);
            } else {
                assert(r[k] == ri[k - 1]);
                if ri[k - 1] != x {
                    let m = choose|m: int| 0 <= m < rest.len() && rest[m] == ri[k - 1];
                    assert(t[m + 1] == rest[m]);
                }
            }
        }
        vstd::seq_lib::lemma_multiset_commutative(seq![t[0]], ri);
        vstd::seq_lib::lemma_multiset_commutative(seq![t[0]], rest);
        assert(seq![t[0]] + rest =~= t);
    } else {
        assert(r == seq![x] + t);
        assert forall|i: int, j: int| 0 <= i < j < r.len() implies r[i].0 >= r[j].0 by {
            if i == 0 {
                assert(r[j] == t[j - 1]);
                if j - 1 > 0 {
                    assert(t[0].0 >= t[j - 1].0);
                }
            } else {
                assert(r[i] == t[i - 1] && r[j] == t[j - 1]);
            }
        }
        assert forall|k: int| 0 <= k < r.len() implies #[trigger] r[k] == x || t.contains(r[k]) by {
            if k > 0 {
                assert(r[k] == t[k - 1]);
            }
        }
        vstd::seq_lib::lemma_multiset_commutative(seq![x], t);
        assert(seq![x] =~= Seq::<(int, int, Seq<char>)>::empty().push(x));
        Seq::<(int, int, Seq<char>)>::empty().to_multiset_ensures();
    }
}

/// Edits sorted for applying come last first, and are the same edits, each
/// as often as before.
pub proof fn lemma_edits_desc_sorted(s: Seq<(int, int, Seq<char>)>)
    ensures
        starts_descending(edits_desc(s)),
        edits_desc(s).to_multiset() == s.to_multiset(),
    decreases s.len(),
{
    broadcast use vstd::seq_lib::group_seq_properties, vstd::multiset::group_multiset_axioms;

    if s.len() > 0 {
        lemma_edits_desc_sorted(s.drop_last());
        lemma_insert_edit_desc(edits_desc(s.drop_last()), s.last());
        s.drop_last().to_multiset_ensures();
        assert(s.drop_last().push(s.last()) =~= s);
    }
}

// ── Occurrences to replace ─────────────────────────────────────────────────

/// Spans ordered by start.
pub open spec fn starts_ascending(s: Seq<(usize, usize)>) -> bool {
    forall|i: int, j: int| 0 <= i < j < s.len() ==> s[i].0 <= s[j].0
}

/// No span follows an equal one.
pub open spec fn no_repeats(s: Seq<(usize, usize)>) -> bool {
    forall|i: int| 0 <= i < s.len() - 1 ==> #[trigger] s[i] != s[i + 1]
}

proof fn lemma_insert_asc(t: Seq<(usize, usize)>, x: (usize, usize))
    requires
        starts_ascending(t),
    ensures
        starts_ascending(insert_asc(t, x)),
        insert_asc(t, x).contains(x),
        forall|y: (usize, usize)| t.contains(y) ==> insert_asc(t, x).contains(y),
        forall|k: int| 0 <= k < insert_asc(t, x).len() ==> #[trigger] insert_asc(t, x)[k] == x || t.contains(insert_asc(t, x)[k]),
    decreases t.len(),
{
    let r = insert_asc(t, x);
    if t.len() == 0 {
        assert(r =~= seq![x]);
        assert(r[0] == x);
    } else if t[0].0 <= x.0 {
        let rest = t.drop_first();
        assert forall|i: int, j: int| 0 <= i < j < rest.len() implies rest[i].0 <= rest[j].0 by {
            assert(rest[i] == t[i + 1] && rest[j] == t[j + 1]);
        }
        lemma_insert_asc(rest, x);
        let ri = insert_asc(rest, x);
        assert(r == seq![t[0]] + ri);
        assert forall|i: int, j: int| 0 <= i < j < r.len() implies r[i].0 <= r[j].0 by {
            if i == 0 {
                assert(r[j] == ri[j - 1]);
                if ri[j - 1] != x {
                    let k = choose|k: int| 0 <= k < rest.len() && rest[k] == ri[j - 1];
                    assert(rest[k] == t[k + 1]);
                }
            } else {
                assert(r[i] == ri[i - 1] && r[j] == ri[j - 1]);
            }
        }
        let kx = choose|k: int| 0 <= k < ri.len() && ri[k] == x;
        assert(r[kx + 1] == x);
        assert forall|y: (usize, usize)| t.contains(y) implies r.contains(y) by {
            let k = choose|k: int| 0 <= k < t.len() && t[k] == y;
            if k == 0 {
                assert(r[0] == y);
            } else {
                assert(rest[k - 1] == y);
                assert(rest.contains(y));
                let m = choose|m: int| 0 <= m < ri.len() && ri[m] == y;
                assert(r[m + 1] == y);
            }
        }
        assert forall|k: int| 0 <= k < r.len() implies #[trigger] r[k] == x || t.contains(r[k]) by {
            if k == 0 {
                assert(t[0] == r[0]);
            } else {
                assert(r[k] == ri[k - 1]);
                if ri[k - 1] != x {
                    let m = choose|m: int| 0 <= m < rest.len() && rest[m] == ri[k - 1];
                    assert(t[m + 1] == rest[m]);
                }
            }
        }
    } else {
        assert(r == seq![x] + t);
        assert(r[0] == x);
        assert forall|i: int, j: int| 0 <= i < j < r.len() implies r[i].0 <= r[j].0 by {
            if i == 0 {
                assert(r[j] == t[j - 1]);
                if j - 1 > 0 {
                    assert(t[0].0 <= t[j - 1].0);
                }
            } else {
                assert(r[i] == t[i - 1] && r[j] == t[j - 1]);
            }
        }
        assert forall|y: (usize, usize)| t.contains(y) implies r.contains(y) by {
            let k = choose|k: int| 0 <= k < t.len() && t[k] == y;
            assert(r[k + 1] == y);
        }
        assert forall|k: int| 0 <= k < r.len() implies #[trigger] r[k] == x || t.contains(r[k]) by {
            if k > 0 {
                assert(r[k] == t[k - 1]);
            }
        }
    }
}

proof fn lemma_sorted_asc(s: Seq<(usize, usize)>)
    ensures
        starts_ascending(sorted_asc(s)),
        forall|y: (usize, usize)| s.contains(y) ==> sorted_asc(s).contains(y),
    decreases s.len(),
{
    if s.len() > 0 {
        let p = s.drop_last();
        lemma_sorted_asc(p);
        lemma_insert_asc(sorted_asc(p), s.last());
        assert forall|y: (usize, usize)| s.contains(y) implies sorted_asc(s).contains(y) by {
            let k = choose|k: int| 0 <= k < s.len() && s[k] == y;
            if k < s.len() - 1 {
                assert(p[k] == y);
                assert(p.contains(y));
                assert(sorted_asc(p).contains(y));
            } else {
                assert(y == s.last());
            }
        }
    }
}

#[verifier::spinoff_prover]
#[verifier::rlimit(40)]
proof fn lemma_dedup(s: Seq<(usize, usize)>)
    requires
        starts_ascending(s),
    ensures
        starts_ascending(dedup(s)),
        no_repeats(dedup(s)),
        s.len() > 0 ==> dedup(s).len() > 0 && dedup(s).last() == s.last(),
        forall|y: (usize, usize)| s.contains(y) ==> dedup(s).contains(y),
        forall|k: int| 0 <= k < dedup(s).len() ==> s.contains(#[trigger] dedup(s)[k]),
    decreases s.len(),
{
    if s.len() > 0 {
        let p = s.drop_last();
        assert forall|i: int, j: int| 0 <= i < j < p.len() implies p[i].0 <= p[j].0 by {
            assert(p[i] == s[i] && p[j] == s[j]);
        }
        lemma_dedup(p);
        let d = dedup(p);
        let r = dedup(s);
        assert forall|k: int| 0 <= k < d.len() implies #[trigger] d[k].0 <= s.last().0 by {
            let m = choose|m: int| 0 <= m < p.len() && p[m] == d[k];
            assert(s[m] == d[k]);
        }
        if d.len() > 0 && d.last() == s.last() {
            assert(r == d);
            assert forall|k: int| 0 <= k < r.len() implies s.contains(#[trigger] r[k]) by {
                let m = choose|m: int| 0 <= m < p.len() && p[m] == d[k];
                assert(s[m] == d[k]);
            }
            assert forall|y: (usize, usize)| s.contains(y) implies r.contains(y) by {
                let k = choose|k: int| 0 <= k < s.len() && s[k] == y;
                if k < s.len() - 1 {
                    assert(p[k] == y);
                    assert(p.contains(y));
                    assert(d.contains(y));
                } else {
                    assert(r[r.len() - 1] == y);
                }
            }
        } else {
            assert(r == d.push(s.last()));
            assert forall|i: int, j: int| 0 <= i < j < r.len() implies r[i].0 <= r[j].0 by {
                if j == r.len() - 1 {
                    assert(r[i] == d[i]);
                } else {
                    assert(r[i] == d[i] && r[j] == d[j]);
                }
            }
            assert forall|i: int| 0 <= i < r.len() - 1 implies #[trigger] r[i] != r[i + 1] by {
                if i + 1 == r.len() - 1 {
                    assert(r[i] == d.last());
                } else {
                    assert(r[i] == d[i] && r[i + 1] == d[i + 1]);
                }
            }
            assert forall|k: int| 0 <= k < r.len() implies s.contains(#[trigger] r[k]) by {
                if k < d.len() {
                    let m = choose|m: int| 0 <= m < p.len() && p[m] == d[k];
                    assert(s[m] == d[k]);
                } else {
                    assert(s[s.len() - 1] == r[k]);
                }
            }
            assert forall|y: (usize, usize)| s.contains(y) implies r.contains(y) by {
                let k = choose|k: int| 0 <= k < s.len() && s[k] == y;
                if k < s.len() - 1 {
                    assert(p[k] == y);
                    assert(p.contains(y));
                    assert(d.contains(y));
                    let m = choose|m: int| 0 <= m < d.len() && d[m] == y;
                    assert(r[m] == y);
                } else {
                    assert(r[r.len() - 1] == y);
                }
            }
        }
    }
}

/// The ranges an introduced variable replaces are ordered by start, hold no
/// range twice in a row, and include the selected expression.
pub proof fn lemma_replacements_ordered(replace_all: bool, es: usize, ee: usize, init: usize, ms: Seq<crate::refactor::introduce_variable::MatchSite>)
    ensures
        starts_ascending(replacements_for(replace_all, es, ee, init, ms).0),
        no_repeats(replacements_for(replace_all, es, ee, init, ms).0),
        replacements_for(replace_all, es, ee, init, ms).0.contains((es, ee)),
{
    if replace_all {
        let c = seq![(es, ee)] + crate::refactor::introduce_variable::kept_spans(ms, es, ee);
        assert(c[0] == (es, ee));
        assert(c.contains((es, ee)));
        lemma_sorted_asc(c);
        assert(sorted_asc(c).contains((es, ee)));
        lemma_dedup(sorted_asc(c));
        assert(dedup(sorted_asc(c)).contains((es, ee)));
    } else {
        let r = replacements_for(replace_all, es, ee, init, ms).0;
        assert(r[0] == (es, ee));
        assert(r.contains((es, ee)));
    }
}

// ── Comparisons ────────────────────────────────────────────────────────────

/// The comparison operators that inverting flips.
pub open spec fn comparison_op(op: Seq<char>) -> bool {
    op == "!="@ || op == "<="@ || op == ">="@ || op == "=="@ || op == "<"@ || op == ">"@
}

/// The operator a comparison flips to.
pub open spec fn flipped_op(op: Seq<char>) -> Seq<char> {
    if op == "!="@ {
        "=="@
    } else if op == "<="@ {
        ">"@
    } else if op == ">="@ {
        "<"@
    } else if op == "=="@ {
        "!="@
    } else if op == "<"@ {
        ">="@
    } else {
        "<="@
    }
}

/// A text without spaces.
pub open spec fn spaceless(s: Seq<char>) -> bool {
    forall|i: int| 0 <= i < s.len() ==> s[i] != ' '
}

/// `x op y` with single spaces around the operator.
pub open spec fn comparison_text(x: Seq<char>, op: Seq<char>, y: Seq<char>) -> Seq<char> {
    x + " "@ + op + " "@ + y
}

proof fn lemma_reveal_ops()
    ensures
        " "@ == seq![' '],
        "!="@ == seq!['!', '='],
        "<="@ == seq!['<', '='],
        ">="@ == seq!['>', '='],
        "=="@ == seq!['=', '='],
        "<"@ == seq!['<'],
        ">"@ == seq!['>'],
{
    reveal_strlit(" ");
    reveal_strlit("!=");
    reveal_strlit("<=");
    reveal_strlit(">=");
    reveal_strlit("==");
    reveal_strlit("<");
    reveal_strlit(">");
    assert(" "@ =~= seq![' ']);
    assert("!="@ =~= seq!['!', '=']);
    assert("<="@ =~= seq!['<', '=']);
    assert(">="@ =~= seq!['>', '=']);
    assert("=="@ =~= seq!['=', '=']);
    assert("<"@ =~= seq!['<']);
    assert(">"@ =~= seq!['>']);
}

/// In `x op y` with spaceless operands, a spaced operator `q` occurs only
/// where `op` stands, and only when it is `op`.
proof fn lemma_spaced_occurrence(x: Seq<char>, op: Seq<char>, y: Seq<char>, q: Seq<char>, i: int)
    requires
        spaceless(x),
        spaceless(y),
        spaceless(op),
        spaceless(q),
        occurs_at(comparison_text(x, op, y), " "@ + q + " "@, i),
    ensures
        i == x.len(),
        q == op,
{
    lemma_reveal_ops();
    let t = comparison_text(x, op, y);
    let p = " "@ + q + " "@;
    let a = x.len() as int;
    let b = x.len() + op.len() + 1;
    assert(t.len() == x.len() + op.len() + y.len() + 2);
    assert forall|k: int| 0 <= k < t.len() && t[k] == ' ' implies k == a || k == b by {
        if k < a {
            assert(t[k] == x[k]);
        } else if a < k < b {
            assert(t[k] == op[k - a - 1]);
        } else if k > b {
            assert(t[k] == y[k - b - 1]);
        }
    }
    assert(t.subrange(i, i + p.len())[0] == p[0]);
    assert(t[i] == ' ');
    let j = i + q.len() + 1;
    assert(t.subrange(i, i + p.len())[q.len() + 1int] == p[q.len() + 1int]);
    assert(t[j] == ' ');
    assert(i == a && j == b);
    assert forall|k: int| 0 <= k < q.len() implies q[k] == op[k] by {
        assert(t.subrange(i, i + p.len())[k + 1] == p[k + 1]);
        assert(t[a + 1 + k] == op[k]);
    }
    assert(q =~= op);
}

proof fn lemma_flip_with_at(x: Seq<char>, op: Seq<char>, y: Seq<char>, q: Seq<char>, fl: Seq<char>)
    requires
        spaceless(x),
        spaceless(y),
        spaceless(op),
        spaceless(q),
    ensures
        q != op ==> flip_with(comparison_text(x, op, y), q, fl) is None,
        q == op ==> flip_with(comparison_text(x, op, y), q, fl) == Some(comparison_text(x, fl, y)),
{
    lemma_reveal_ops();
    let t = comparison_text(x, op, y);
    let p = " "@ + q + " "@;
    if q != op {
        assert forall|i: int| !occurs_at(t, p, i) by {
            if occurs_at(t, p, i) {
                lemma_spaced_occurrence(x, op, y, q, i);
            }
        }
        assert(!crate::text::contains(t, p));
    } else {
        let a = x.len() as int;
        assert(t.subrange(a, a + p.len()) =~= p);
        assert(occurs_at(t, p, a));
        assert forall|j: int| 0 <= j < a implies !occurs_at(t, p, j) by {
            if occurs_at(t, p, j) {
                lemma_spaced_occurrence(x, op, y, q, j);
            }
        }
        let f = first_occurrence(t, p)->0;
        assert(occurs_at(t, p, f));
        lemma_spaced_occurrence(x, op, y, q, f);
        assert(t.take(a) =~= x);
        assert(t.skip(a + p.len()) =~= y);
        assert(x + " "@ + fl + " "@ + y =~= comparison_text(x, fl, y));
    }
}

proof fn lemma_flip_once(x: Seq<char>, op: Seq<char>, y: Seq<char>)
    requires
        comparison_op(op),
        spaceless(x),
        spaceless(y),
    ensures
        flipped(comparison_text(x, op, y)) == Some(comparison_text(x, flipped_op(op), y)),
{
    lemma_reveal_ops();
    assert(spaceless(op));
    assert(spaceless("!="@) && spaceless("<="@) && spaceless(">="@) && spaceless("=="@) && spaceless("<"@)
        && spaceless(">"@));
    lemma_flip_with_at(x, op, y, "!="@, "=="@);
    lemma_flip_with_at(x, op, y, "<="@, ">"@);
    lemma_flip_with_at(x, op, y, ">="@, "<"@);
    lemma_flip_with_at(x, op, y, "=="@, "!="@);
    lemma_flip_with_at(x, op, y, "<"@, ">="@);
    lemma_flip_with_at(x, op, y, ">"@, "<="@);
}

/// Flipping a comparison `x op y` (spaceless operands, single spaces around
/// the operator) negates its operator, and flipping again gives it back.
pub proof fn lemma_flip_comparison_twice(x: Seq<char>, op: Seq<char>, y: Seq<char>)
    requires
        comparison_op(op),
        spaceless(x),
        spaceless(y),
    ensures
        flipped(comparison_text(x, op, y)) == Some(comparison_text(x, flipped_op(op), y)),
        flipped(comparison_text(x, flipped_op(op), y)) == Some(comparison_text(x, op, y)),
{
    lemma_flipped_op(op);
    lemma_flip_once(x, op, y);
    lemma_flip_once(x, flipped_op(op), y);
}

proof fn lemma_flipped_op(op: Seq<char>)
    requires
        comparison_op(op),
    ensures
        comparison_op(flipped_op(op)),
        flipped_op(flipped_op(op)) == op,
{
    lemma_reveal_ops();
    assert(seq!['!', '='] != seq!['=', '=']) by {
        assert(seq!['!', '='][0] != seq!['=', '='][0]);
    }
    assert(seq!['<', '='] != seq!['>', '=']) by {
        assert(seq!['<', '='][0] != seq!['>', '='][0]);
    }
    assert(seq!['<', '='] != seq!['=', '=']) by {
        assert(seq!['<', '='][0] != seq!['=', '='][0]);
    }
    assert(seq!['>', '='] != seq!['=', '=']) by {
        assert(seq!['>', '='][0] != seq!['=', '='][0]);
    }
    assert(seq!['!', '='] != seq!['<', '=']) by {
        assert(seq!['!', '='][0] != seq!['<', '='][0]);
    }
    assert(seq!['!', '='] != seq!['>', '=']) by {
        assert(seq!['!', '='][0] != seq!['>', '='][0]);
    }
    assert(seq!['<'] != seq!['>']) by {
        assert(seq!['<'][0] != seq!['>'][0]);
    }
    assert(seq!['<'].len() != seq!['!', '='].len());
    if op == "!="@ {
        assert(flipped_op(op) == "=="@);
    } else if op == "<="@ {
        assert(flipped_op(op) == ">"@);
        assert(">"@ != "!="@ && ">"@ != "<="@ && ">"@ != ">="@ && ">"@ != "=="@ && ">"@ != "<"@);
    } else if op == ">="@ {
        assert(flipped_op(op) == "<"@);
        assert("<"@ != "!="@ && "<"@ != "<="@ && "<"@ != ">="@ && "<"@ != "=="@);
    } else if op == "=="@ {
        assert(flipped_op(op) == "!="@);
    } else if op == "<"@ {
        assert(flipped_op(op) == ">="@);
        assert(">="@ != "!="@ && ">="@ != "<="@);
    } else {
        assert(flipped_op(op) == "<="@);
        assert("<="@ != "!="@);
    }
}

// ── Resource paths ─────────────────────────────────────────────────────────

/// The `res://` path of a project-relative path starts with `res://`, and
/// taking that prefix off gives the relative path back.
pub proof fn lemma_res_path_round_trip(rel: Seq<char>)
    ensures
        starts_with(crate::refactor::move_file::res_path(rel), "res://"@),
        crate::refactor::move_file::res_path(rel).skip(6) == rel,
{
    reveal_strlit("res://");
    let r = crate::refactor::move_file::res_path(rel);
    assert(r.take(6) =~= "res://"@);
    assert(r.skip(6) =~= rel);
}

// ── Overrides ──────────────────────────────────────────────────────────────

/// The scripts found to override a function never include the script being
/// changed, come in increasing order, and each defines the function.
pub proof fn lemma_overrides_exclude_target(
    fs: Seq<(Option<Seq<char>>, Option<Seq<char>>, Seq<Seq<char>>)>,
    target: int,
    name: Seq<char>,
    k: int,
)
    requires
        k <= fs.len(),
    ensures
        forall|j: int| 0 <= j < overrides_upto(fs, target, name, k).len() ==> {
            let i = #[trigger] overrides_upto(fs, target, name, k)[j];
            &&& i != target
            &&& 0 <= i < k
            &&& fs[i].2.contains(name)
        },
        forall|j: int, l: int|
            0 <= j < l < overrides_upto(fs, target, name, k).len() ==> #[trigger] overrides_upto(fs, target, name, k)[j]
                < #[trigger] overrides_upto(fs, target, name, k)[l],
    decreases k,
{
    if k > 0 {
        lemma_overrides_exclude_target(fs, target, name, k - 1);
        let p = overrides_upto(fs, target, name, k - 1);
        if is_override(fs, target, k - 1, name) {
            let q = p.push(k - 1);
            assert(overrides_upto(fs, target, name, k) == q);
            assert forall|j: int| 0 <= j < q.len() implies q[j] != target && 0 <= q[j] < k && fs[q[j]].2.contains(name) by {
                if j < p.len() {
                    assert(q[j] == p[j]);
                }
            }
            assert forall|j: int, l: int| 0 <= j < l < q.len() implies q[j] < q[l] by {
                assert(q[j] == p[j]);
                if l < p.len() {
                    assert(q[l] == p[l]);
                }
            }
        } else {
            assert(overrides_upto(fs, target, name, k) == p);
        }
    }
}

// ── Generated code ─────────────────────────────────────────────────────────

/// With a backing field, the setter that encapsulation writes stores the new
/// value in the backing field `_name` (the field the getter returns): the
/// generated accessors end with `\t_name = value`, so the new source holds
/// that assignment.
#[verifier::spinoff_prover]
#[verifier::rlimit(50)]
pub proof fn lemma_backing_setter_assigns_backing(src: Seq<char>, n: SyntaxNode, name: Seq<char>)
    ensures
        ({
            let a = accessors(src, n, name, true);
            let set = seq!['\t', '_'] + name + seq![' ', '=', ' ', 'v', 'a', 'l', 'u', 'e'];
            &&& a.len() >= set.len()
            &&& a.subrange(a.len() - set.len(), a.len() as int) == set
        }),
        contains(
            with_declaration(src, n, accessors(src, n, name, true)),
            seq!['\t', '_'] + name + seq![' ', '=', ' ', 'v', 'a', 'l', 'u', 'e'],
        ),
{
    let indent = crate::text::indent_of(crate::text::nth_line(src, n.start_row as int));
    let prefix = annotation_prefix(n, src);
    let ty = type_text(n, src);
    let val = value_text(n, src);
    let backing = "_"@ + name;
    let ret_ty = match ty {
        Some(t) => " -> "@ + t,
        None => Seq::empty(),
    };
    let arg_ty = match ty {
        Some(t) => ": "@ + t,
        None => Seq::empty(),
    };
    let head = decl_head(indent, prefix, backing, ty, val) + "\n\n"@ + indent + "func _get_"@ + name + "()"@ + ret_ty + ":\n"@
        + indent + "\treturn "@ + backing + "\n\n"@ + indent + "func _set_"@ + name + "(value"@ + arg_ty + ") -> void:\n"@
        + indent;
    let set = seq!['\t', '_'] + name + seq![' ', '=', ' ', 'v', 'a', 'l', 'u', 'e'];
    assert("\t"@ + backing + " = value"@ =~= set) by {
        reveal_strlit("\t");
        reveal_strlit("_");
        reveal_strlit(" = value");
    }
    let a = accessors(src, n, name, true);
    assert(a == head + "\t"@ + backing + " = value"@);
    assert(a =~= head + ("\t"@ + backing + " = value"@));
    assert(a.subrange(a.len() - set.len(), a.len() as int) =~= set);
    let b = vstd::utf8::encode_utf8(src);
    let x = crate::syntax::text_between(src, 0, crate::refactor::invert_if::line_offset(b, n.start_row as int));
    let z = "\n"@ + crate::syntax::text_between(src, crate::refactor::encapsulate_field::end_with_nl(src, n), b.len() as int);
    assert(with_declaration(src, n, a) =~= x + a + z);
    assert(x + a + z =~= (x + head) + set + z);
    lemma_contains_middle(x + head, set, z);
}

proof fn lemma_contains_append(x: Seq<char>, y: Seq<char>, z: Seq<char>)
    requires
        contains(x, y),
    ensures
        contains(x + z, y),
{
    let k = choose|k: int| occurs_at(x, y, k);
    assert((x + z).subrange(k, k + y.len()) =~= x.subrange(k, k + y.len()));
    assert(occurs_at(x + z, y, k));
}

/// With a backing field, the getter that encapsulation writes returns the
/// backing field `_name`.
#[verifier::spinoff_prover]
#[verifier::rlimit(50)]
pub proof fn lemma_backing_getter_returns_backing(src: Seq<char>, n: SyntaxNode, name: Seq<char>)
    ensures
        contains(accessors(src, n, name, true), seq!['\t', 'r', 'e', 't', 'u', 'r', 'n', ' ', '_'] + name + seq!['\n']),
{
    let indent = crate::text::indent_of(crate::text::nth_line(src, n.start_row as int));
    let prefix = annotation_prefix(n, src);
    let ty = type_text(n, src);
    let val = value_text(n, src);
    let backing = "_"@ + name;
    let ret_ty = match ty {
        Some(t) => " -> "@ + t,
        None => Seq::empty(),
    };
    let arg_ty = match ty {
        Some(t) => ": "@ + t,
        None => Seq::empty(),
    };
    let x = decl_head(indent, prefix, backing, ty, val) + "\n\n"@ + indent + "func _get_"@ + name + "()"@ + ret_ty + ":\n"@
        + indent;
    let gy = seq!['\t', 'r', 'e', 't', 'u', 'r', 'n', ' ', '_'] + name + seq!['\n'];
    assert("\treturn "@ + backing + "\n\n"@ =~= gy + seq!['\n']) by {
        reveal_strlit("\treturn ");
        reveal_strlit("_");
        reveal_strlit("\n\n");
    }
    let l0 = x + "\treturn "@ + backing + "\n\n"@;
    assert(l0 =~= x + ("\treturn "@ + backing + "\n\n"@));
    assert(x + (gy + seq!['\n']) =~= x + gy + seq!['\n']);
    lemma_contains_middle(x, gy, seq!['\n']);
    let l1 = l0 + indent;
    lemma_contains_append(l0, gy, indent);
    let l2 = l1 + "func _set_"@;
    lemma_contains_append(l1, gy, "func _set_"@);
    let l3 = l2 + name;
    lemma_contains_append(l2, gy, name);
    let l4 = l3 + "(value"@;
    lemma_contains_append(l3, gy, "(value"@);
    let l5 = l4 + arg_ty;
    lemma_contains_append(l4, gy, arg_ty);
    let l6 = l5 + ") -> void:\n"@;
    lemma_contains_append(l5, gy, ") -> void:\n"@);
    let l7 = l6 + indent;
    lemma_contains_append(l6, gy, indent);
    let l8 = l7 + "\t"@;
    lemma_contains_append(l7, gy, "\t"@);
    let l9 = l8 + backing;
    lemma_contains_append(l8, gy, backing);
    lemma_contains_append(l9, gy, " = value"@);
    assert(accessors(src, n, name, true) == l9 + " = value"@);
}

/// With a backing field, what encapsulation declares is the backing field
/// `var _name`.
#[verifier::spinoff_prover]
#[verifier::rlimit(50)]
pub proof fn lemma_backing_field_declared(src: Seq<char>, n: SyntaxNode, name: Seq<char>)
    ensures
        contains(accessors(src, n, name, true), seq!['v', 'a', 'r', ' ', '_'] + name),
{
    let indent = crate::text::indent_of(crate::text::nth_line(src, n.start_row as int));
    let prefix = annotation_prefix(n, src);
    let ty = type_text(n, src);
    let val = value_text(n, src);
    let backing = "_"@ + name;
    let ret_ty = match ty {
        Some(t) => " -> "@ + t,
        None => Seq::empty(),
    };
    let arg_ty = match ty {
        Some(t) => ": "@ + t,
        None => Seq::empty(),
    };
    let typ = match ty {
        Some(t) => ": "@ + t,
        None => Seq::empty(),
    };
    let valp = match val {
        Some(v) => " = "@ + v,
        None => Seq::empty(),
    };
    let pre = indent + (if prefix.len() > 0 {
        prefix + " "@
    } else {
        Seq::empty()
    });
    let dy = seq!['v', 'a', 'r', ' ', '_'] + name;
    assert("var "@ + backing =~= dy) by {
        reveal_strlit("var ");
        reveal_strlit("_");
    }
    let l0 = pre + "var "@ + backing;
    assert(l0 =~= pre + ("var "@ + backing));
    lemma_contains_middle(pre, dy, Seq::<char>::empty());
    assert(pre + dy + Seq::<char>::empty() =~= pre + dy);
    let m1 = l0 + typ;
    lemma_contains_append(l0, dy, typ);
    let m2 = m1 + valp;
    lemma_contains_append(m1, dy, valp);
    let m3 = m2 + "\n\n"@;
    lemma_contains_append(m2, dy, "\n\n"@);
    let m4 = m3 + indent;
    lemma_contains_append(m3, dy, indent);
    let m5 = m4 + "func _get_"@;
    lemma_contains_append(m4, dy, "func _get_"@);
    let m6 = m5 + name;
    lemma_contains_append(m5, dy, name);
    let m7 = m6 + "()"@;
    lemma_contains_append(m6, dy, "()"@);
    let m8 = m7 + ret_ty;
    lemma_contains_append(m7, dy, ret_ty);
    let m9 = m8 + ":\n"@;
    lemma_contains_append(m8, dy, ":\n"@);
    let m10 = m9 + indent;
    lemma_contains_append(m9, dy, indent);
    let m11 = m10 + "\treturn "@;
    lemma_contains_append(m10, dy, "\treturn "@);
    let m12 = m11 + backing;
    lemma_contains_append(m11, dy, backing);
    let m13 = m12 + "\n\n"@;
    lemma_contains_append(m12, dy, "\n\n"@);
    let m14 = m13 + indent;
    lemma_contains_append(m13, dy, indent);
    let m15 = m14 + "func _set_"@;
    lemma_contains_append(m14, dy, "func _set_"@);
    let m16 = m15 + name;
    lemma_contains_append(m15, dy, name);
    let m17 = m16 + "(value"@;
    lemma_contains_append(m16, dy, "(value"@);
    let m18 = m17 + arg_ty;
    lemma_contains_append(m17, dy, arg_ty);
    let m19 = m18 + ") -> void:\n"@;
    lemma_contains_append(m18, dy, ") -> void:\n"@);
    let m20 = m19 + indent;
    lemma_contains_append(m19, dy, indent);
    let m21 = m20 + "\t"@;
    lemma_contains_append(m20, dy, "\t"@);
    let m22 = m21 + backing;
    lemma_contains_append(m21, dy, backing);
    assert(accessors(src, n, name, true) == m22 + " = value"@);
    lemma_contains_append(m22, dy, " = value"@);
}

/// With a backing field, encapsulation writes the getter `_get_name()` and
/// the setter `_set_name(value...)` for the variable's own name.
#[verifier::spinoff_prover]
#[verifier::rlimit(50)]
pub proof fn lemma_backing_accessor_names(src: Seq<char>, n: SyntaxNode, name: Seq<char>)
    ensures
        contains(accessors(src, n, name, true), seq!['f', 'u', 'n', 'c', ' ', '_', 'g', 'e', 't', '_'] + name + seq!['(', ')']),
        contains(
            accessors(src, n, name, true),
            seq!['f', 'u', 'n', 'c', ' ', '_', 's', 'e', 't', '_'] + name + seq!['(', 'v', 'a', 'l', 'u', 'e'],
        ),
{
    let indent = crate::text::indent_of(crate::text::nth_line(src, n.start_row as int));
    let prefix = annotation_prefix(n, src);
    let ty = type_text(n, src);
    let val = value_text(n, src);
    let backing = "_"@ + name;
    let ret_ty = match ty {
        Some(t) => " -> "@ + t,
        None => Seq::empty(),
    };
    let arg_ty = match ty {
        Some(t) => ": "@ + t,
        None => Seq::empty(),
    };
    let gy = seq!['f', 'u', 'n', 'c', ' ', '_', 'g', 'e', 't', '_'] + name + seq!['(', ')'];
    assert("func _get_"@ + name + "()"@ =~= gy) by {
        reveal_strlit("func _get_");
        reveal_strlit("()");
    }
    let gx = decl_head(indent, prefix, backing, ty, val) + "\n\n"@ + indent;
    let g0 = gx + "func _get_"@ + name + "()"@;
    assert(g0 =~= gx + ("func _get_"@ + name + "()"@));
    lemma_contains_middle(gx, gy, Seq::<char>::empty());
    assert(gx + gy + Seq::<char>::empty() =~= gx + gy);
    let gy_1 = g0 + ret_ty;
    lemma_contains_append(g0, gy, ret_ty);
    let gy_2 = gy_1 + ":\n"@;
    lemma_contains_append(gy_1, gy, ":\n"@);
    let gy_3 = gy_2 + indent;
    lemma_contains_append(gy_2, gy, indent);
    let gy_4 = gy_3 + "\treturn "@;
    lemma_contains_append(gy_3, gy, "\treturn "@);
    let gy_5 = gy_4 + backing;
    lemma_contains_append(gy_4, gy, backing);
    let gy_6 = gy_5 + "\n\n"@;
    lemma_contains_append(gy_5, gy, "\n\n"@);
    let gy_7 = gy_6 + indent;
    lemma_contains_append(gy_6, gy, indent);
    let gy_8 = gy_7 + "func _set_"@;
    lemma_contains_append(gy_7, gy, "func _set_"@);
    let gy_9 = gy_8 + name;
    lemma_contains_append(gy_8, gy, name);
    let gy_10 = gy_9 + "(value"@;
    lemma_contains_append(gy_9, gy, "(value"@);
    let gy_11 = gy_10 + arg_ty;
    lemma_contains_append(gy_10, gy, arg_ty);
    let gy_12 = gy_11 + ") -> void:\n"@;
    lemma_contains_append(gy_11, gy, ") -> void:\n"@);
    let gy_13 = gy_12 + indent;
    lemma_contains_append(gy_12, gy, indent);
    let gy_14 = gy_13 + "\t"@;
    lemma_contains_append(gy_13, gy, "\t"@);
    let gy_15 = gy_14 + backing;
    lemma_contains_append(gy_14, gy, backing);
    let gy_16 = gy_15 + " = value"@;
    lemma_contains_append(gy_15, gy, " = value"@);
    assert(accessors(src, n, name, true) == gy_16);
    let sy = seq!['f', 'u', 'n', 'c', ' ', '_', 's', 'e', 't', '_'] + name + seq!['(', 'v', 'a', 'l', 'u', 'e'];
    assert("func _set_"@ + name + "(value"@ =~= sy) by {
        reveal_strlit("func _set_");
        reveal_strlit("(value");
    }
    let sx = decl_head(indent, prefix, backing, ty, val) + "\n\n"@ + indent + "func _get_"@ + name + "()"@ + ret_ty + ":\n"@
        + indent + "\treturn "@ + backing + "\n\n"@ + indent;
    let s0 = sx + "func _set_"@ + name + "(value"@;
    assert(s0 =~= sx + ("func _set_"@ + name + "(value"@));
    lemma_contains_middle(sx, sy, Seq::<char>::empty());
    assert(sx + sy + Seq::<char>::empty() =~= sx + sy);
    let sy_1 = s0 + arg_ty;
    lemma_contains_append(s0, sy, arg_ty);
    let sy_2 = sy_1 + ") -> void:\n"@;
    lemma_contains_append(sy_1, sy, ") -> void:\n"@);
    let sy_3 = sy_2 + indent;
    lemma_contains_append(sy_2, sy, indent);
    let sy_4 = sy_3 + "\t"@;
    lemma_contains_append(sy_3, sy, "\t"@);
    let sy_5 = sy_4 + backing;
    lemma_contains_append(sy_4, sy, backing);
    let sy_6 = sy_5 + " = value"@;
    lemma_contains_append(sy_5, sy, " = value"@);
    assert(accessors(src, n, name, true) == sy_6);
}

/// Without a backing field, the inline setter that encapsulation writes
/// assigns the variable itself, and the inline getter returns it.
#[verifier::spinoff_prover]
#[verifier::rlimit(50)]
pub proof fn lemma_inline_accessors_use_the_variable(src: Seq<char>, n: SyntaxNode, name: Seq<char>)
    ensures
        contains(accessors(src, n, name, false), seq!['\t', '\t'] + name + seq![' ', '=', ' ', 'v', 'a', 'l', 'u', 'e', '\n']),
        contains(accessors(src, n, name, false), seq!['\t', '\t', 'r', 'e', 't', 'u', 'r', 'n', ' '] + name),
{
    let indent = crate::text::indent_of(crate::text::nth_line(src, n.start_row as int));
    let prefix = annotation_prefix(n, src);
    let ty = type_text(n, src);
    let val = value_text(n, src);
    let i = accessors(src, n, name, false);
    let s0 = decl_head(indent, prefix, name, ty, val) + ":\n"@ + indent + "\tset(value):\n"@ + indent;
    let sy = seq!['\t', '\t'] + name + seq![' ', '=', ' ', 'v', 'a', 'l', 'u', 'e', '\n'];
    let sz = indent + "\tget:\n"@ + indent + "\t\treturn "@ + name;
    assert("\t\t"@ + name + " = value\n"@ =~= sy) by {
        reveal_strlit("\t\t");
        reveal_strlit(" = value\n");
    }
    assert(i =~= s0 + ("\t\t"@ + name + " = value\n"@) + sz);
    lemma_contains_middle(s0, sy, sz);
    let r0 = s0 + "\t\t"@ + name + " = value\n"@ + indent + "\tget:\n"@ + indent;
    let ry = seq!['\t', '\t', 'r', 'e', 't', 'u', 'r', 'n', ' '] + name;
    assert("\t\treturn "@ + name =~= ry) by {
        reveal_strlit("\t\treturn ");
    }
    assert(i =~= r0 + ry + Seq::<char>::empty());
    lemma_contains_middle(r0, ry, Seq::<char>::empty());
}

/// A connection from the script's own node (`.`) becomes a call on the
/// signal itself, `signal.connect(method)`, with no node path; from any
/// other node it is the same call behind `$from.`.
pub proof fn lemma_own_node_connect_call(from: Seq<char>, signal: Seq<char>, method: Seq<char>)
    ensures
        connect_call(seq!['.'], signal, method) == signal + seq!['.', 'c', 'o', 'n', 'n', 'e', 'c', 't', '('] + method + seq![')'],
        from != seq!['.'] ==> connect_call(from, signal, method) == seq!['$'] + from + seq!['.'] + connect_call(
            seq!['.'],
            signal,
            method,
        ),
{
    reveal_strlit(".");
    reveal_strlit(".connect(");
    reveal_strlit(")");
    reveal_strlit("$");
    assert("."@ =~= seq!['.']);
    assert(connect_call(seq!['.'], signal, method) =~= signal + seq!['.', 'c', 'o', 'n', 'n', 'e', 'c', 't', '('] + method + seq![')']);
    if from != seq!['.'] {
        assert(connect_call(from, signal, method) =~= seq!['$'] + from + seq!['.'] + connect_call(seq!['.'], signal, method));
    }
}

/// Is one of the expression kinds that bind looser than their context.
pub open spec fn loose_kind(k: Seq<char>) -> bool {
    k == seq!['b', 'i', 'n', 'a', 'r', 'y', '_', 'o', 'p', 'e', 'r', 'a', 't', 'o', 'r'] || k == seq![
        't',
        'e',
        'r',
        'n',
        'a',
        'r',
        'y',
        '_',
        'e',
        'x',
        'p',
        'r',
        'e',
        's',
        's',
        'i',
        'o',
        'n',
    ] || k == seq!['u', 'n', 'a', 'r', 'y', '_', 'o', 'p', 'e', 'r', 'a', 't', 'o', 'r']
}

/// Is one of the contexts that bind tighter than such an expression.
pub open spec fn tight_context(k: Seq<char>) -> bool {
    k == seq!['b', 'i', 'n', 'a', 'r', 'y', '_', 'o', 'p', 'e', 'r', 'a', 't', 'o', 'r'] || k == seq![
        's',
        'u',
        'b',
        's',
        'c',
        'r',
        'i',
        'p',
        't',
    ] || k == seq!['a', 't', 't', 'r', 'i', 'b', 'u', 't', 'e'] || k == seq![
        'u',
        'n',
        'a',
        'r',
        'y',
        '_',
        'o',
        'p',
        'e',
        'r',
        'a',
        't',
        'o',
        'r',
    ]
}

/// Inlining a variable keeps the meaning of each usage: an initializer that
/// is an operator or ternary expression goes in brackets where the usage is
/// an operand of an operator, subscript or attribute, and goes in as it is
/// elsewhere. A usage directly under such a node is replaced by exactly that.
pub proof fn lemma_inlined_usage_bracketed(
    init: Seq<char>,
    ik: Seq<char>,
    pk: Option<Seq<char>>,
    u: SyntaxNode,
    src: Seq<char>,
    name: Seq<char>,
    d: (usize, usize),
)
    ensures
        usage_text(init, ik, pk) == (if loose_kind(ik) && (pk matches Some(p) && tight_context(p)) {
            seq!['('] + init + seq![')']
        } else {
            init
        }),
        u.kind@ == "identifier"@ && crate::syntax::text_of(src, u) == name && !(u.start_byte >= d.0 && u.end_byte <= d.1)
            && (pk matches Some(p) && tight_context(p)) && loose_kind(ik) ==> usage_reps(u, src, name, d, init, ik, pk) == seq![
            (u.start_byte as int, u.end_byte as int, seq!['('] + init + seq![')']),
        ],
{
    reveal_strlit("binary_operator");
    reveal_strlit("ternary_expression");
    reveal_strlit("unary_operator");
    reveal_strlit("subscript");
    reveal_strlit("attribute");
    assert("binary_operator"@ =~= seq!['b', 'i', 'n', 'a', 'r', 'y', '_', 'o', 'p', 'e', 'r', 'a', 't', 'o', 'r']);
    assert("ternary_expression"@ =~= seq!['t', 'e', 'r', 'n', 'a', 'r', 'y', '_', 'e', 'x', 'p', 'r', 'e', 's', 's', 'i', 'o', 'n']);
    assert("unary_operator"@ =~= seq!['u', 'n', 'a', 'r', 'y', '_', 'o', 'p', 'e', 'r', 'a', 't', 'o', 'r']);
    assert("subscript"@ =~= seq!['s', 'u', 'b', 's', 'c', 'r', 'i', 'p', 't']);
    assert("attribute"@ =~= seq!['a', 't', 't', 'r', 'i', 'b', 'u', 't', 'e']);
}

/// The call that replaces extracted statements assigns the returned
/// variable: it declares it (`var name = `) when the variable was declared
/// inside the extracted statements, and assigns the existing one otherwise;
/// the rest is the plain call.
pub proof fn lemma_call_site_declares_local(name: Seq<char>, params: Seq<CapturedVar>, r: CapturedVar, indent: Seq<char>)
    ensures
        ({
            let c = call_site(name, params, Some(r), indent);
            let lead = if r.needs_var_declaration {
                indent + seq!['v', 'a', 'r', ' '] + r.name@ + seq![' ', '=', ' ']
            } else {
                indent + r.name@ + seq![' ', '=', ' ']
            };
            &&& c.len() >= lead.len()
            &&& c.take(lead.len() as int) == lead
            &&& c.skip(lead.len() as int) == call_site(name, params, None, Seq::empty())
        }),
{
    reveal_strlit("var ");
    reveal_strlit(" = ");
    let c = call_site(name, params, Some(r), indent);
    let plain = call_site(name, params, None, Seq::empty());
    let lead = if r.needs_var_declaration {
        indent + seq!['v', 'a', 'r', ' '] + r.name@ + seq![' ', '=', ' ']
    } else {
        indent + r.name@ + seq![' ', '=', ' ']
    };
    assert(plain =~= name + "("@ + crate::refactor::extract_method::arg_list(params) + ")\n"@);
    assert(c =~= lead + plain);
    assert(c.take(lead.len() as int) =~= lead);
    assert(c.skip(lead.len() as int) =~= plain);
}

proof fn lemma_param_map_keeps(ps: Seq<(Seq<char>, Option<Seq<char>>, Option<Seq<char>>)>, args: Seq<Seq<char>>, i: int, k: int)
    requires
        0 <= i < k <= ps.len(),
        forall|j: int| i < j < ps.len() ==> ps[j].0 != ps[i].0,
    ensures
        param_map(ps, args, k).dom().contains(ps[i].0),
        param_map(ps, args, k)[ps[i].0] == crate::refactor::inline_method::arg_for(ps, args, i),
    decreases k,
{
    if k > i + 1 {
        lemma_param_map_keeps(ps, args, i, k - 1);
    }
}

/// Inlining a call sends each parameter (not shadowed by a later one of the
/// same name) to the call's argument at its position; where the call passes
/// none, to the parameter's default value; and only without a default to the
/// parameter's own name.
pub proof fn lemma_parameter_gets_argument_or_default(
    ps: Seq<(Seq<char>, Option<Seq<char>>, Option<Seq<char>>)>,
    args: Seq<Seq<char>>,
    i: int,
)
    requires
        0 <= i < ps.len(),
        forall|j: int| i < j < ps.len() ==> ps[j].0 != ps[i].0,
    ensures
        param_map(ps, args, ps.len() as int).dom().contains(ps[i].0),
        i < args.len() ==> param_map(ps, args, ps.len() as int)[ps[i].0] == args[i],
        i >= args.len() && ps[i].2 is Some ==> param_map(ps, args, ps.len() as int)[ps[i].0] == ps[i].2->0,
        i >= args.len() && ps[i].2 is None ==> param_map(ps, args, ps.len() as int)[ps[i].0] == ps[i].0,
{
    lemma_param_map_keeps(ps, args, i, ps.len() as int);
}

} // verus!
