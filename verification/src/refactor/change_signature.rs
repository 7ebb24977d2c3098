//! Change-signature: parameter specs, identifier renames in text, and the
//! argument lists of updated call sites.
use vstd::prelude::*;
use vstd::string::StringSliceAdditionalSpecFns;

use crate::assoc::TextMap;
use crate::parse::{chain_at, fitting_tree, nodes_at, parse_fitting};
use crate::edits::{edit_views, edits_desc};
use crate::refactor::inline_method::{
    bytes_at, bytes_match, ident_byte, ident_char, is_ident_char, param_view, string_texts,
};
use crate::refactor::str_eq;
use crate::refactor::inline_method::{rep_view, sorted_reps, spans_in, spliced};
use crate::syntax::{
    SyntaxNode, child_by_field_name, field_child, first_where, kind_is, node_text, replace_span, span_replaced, text_of,
    tree_ok, well_nested,
};
use vstd::utf8::encode_utf8;
use crate::text::{
    chars_of, concat_strs, concat_views, contains, decimal, decimal_string, find, first_occurrence, join,
    lines, split_on, starts_with, occurs_at, matches_at, extend, split_pieces, seq_eq, opt_view, push_str, slice_of, string_of, trim, trimmed,
};

verus! {

/// What a change-signature run reports.
pub struct ChangeSignatureOutput {
    pub function: String,
    pub file: String,
    pub old_signature: String,
    pub new_signature: String,
    pub call_sites_updated: u32,
    pub overrides_updated: u32,
    pub applied: bool,
    pub warnings: Vec<String>,
}

/// A parameter as written in a signature: `name[: type][ = default]`.
pub struct ParamInfo {
    pub name: String,
    pub type_hint: Option<String>,
    pub default: Option<String>,
}

/// A parameter spec whose name part is empty.
#[derive(Debug)]
pub struct ParamSpecError {
    /// The spec, trimmed.
    pub spec: String,
}

impl ParamSpecError {
    /// The message shown to the user.
    pub fn message(&self) -> (r: String)
        ensures
            r@ == "empty parameter name in '"@ + self.spec@ + "'"@,
    {
        let mut r = String::new();
        push_str(&mut r, "empty parameter name in '");
        push_str(&mut r, self.spec.as_str());
        push_str(&mut r, "'");
        r
    }
}

// ── Parameter specs ────────────────────────────────────────────────────────

/// `t` split at the first occurrence of `pat`: the part before it, trimmed,
/// and the part after it, trimmed, when `pat` occurs; else all of `t` and nothing.
pub open spec fn split_first(t: Seq<char>, pat: Seq<char>) -> (Seq<char>, Option<Seq<char>>) {
    match first_occurrence(t, pat) {
        Some(p) => (trim(t.subrange(0, p)), Some(trim(t.subrange(p + pat.len(), t.len() as int)))),
        None => (t, None),
    }
}

/// The part of a parameter spec before `=` (all of it when there is none), trimmed.
pub open spec fn name_and_type(s: Seq<char>) -> Seq<char> {
    split_first(trim(s), seq!['=']).0
}

/// The default value: the text after the first `=`, trimmed.
pub open spec fn default_of(s: Seq<char>) -> Option<Seq<char>> {
    split_first(trim(s), seq!['=']).1
}

/// The parameter name: what comes before the first `:` of the name part, trimmed.
pub open spec fn param_name(s: Seq<char>) -> Seq<char> {
    split_first(name_and_type(s), seq![':']).0
}

/// The type hint: what follows the first `:` of the name part, trimmed.
pub open spec fn type_of(s: Seq<char>) -> Option<Seq<char>> {
    split_first(name_and_type(s), seq![':']).1
}

fn trimmed_range(t: &Vec<char>, from: usize, to: usize) -> (r: Vec<char>)
    requires
        from <= to <= t@.len(),
    ensures
        r@ == trim(t@.subrange(from as int, to as int)),
{
    let part = slice_of(t, from, to);
    trimmed(&part)
}

fn find_pos(t: &Vec<char>, pat: &[char]) -> (r: Option<usize>)
    ensures
        match r {
            Some(i) => first_occurrence(t@, pat@) == Some(i as int) && i + pat@.len() <= t@.len(),
            None => first_occurrence(t@, pat@) is None,
        },
{
    find(t, pat)
}

fn split_at_first(t: &Vec<char>, pat: &[char]) -> (r: (Vec<char>, Option<String>))
    ensures
        r.0@ == split_first(t@, pat@).0,
        opt_view(r.1) == split_first(t@, pat@).1,
{
    match find_pos(t, pat) {
        Some(p) => {
            let h = trimmed_range(t, 0, p);
            let n = t.len();
            let d = trimmed_range(t, p + pat.len(), n);
            (h, Some(string_of(&d)))
        },
        None => {
            let all = slice_of(t, 0, t.len());
            assert(all@ =~= t@);
            (all, None)
        },
    }
}

/// Parse a parameter spec like `name: Type = default`.
pub fn parse_param_spec(spec: &str) -> (r: Result<ParamInfo, ParamSpecError>)
    ensures
        match r {
            Ok(p) => {
                &&& param_name(spec@).len() > 0
                &&& p.name@ == param_name(spec@)
                &&& opt_view(p.type_hint) == type_of(spec@)
                &&& opt_view(p.default) == default_of(spec@)
            },
            Err(e) => param_name(spec@).len() == 0 && e.spec@ == trim(spec@),
        },
{
    let all = chars_of(spec);
    let t = trimmed(&all);
    let eq: [char; 1] = ['='];
    let colon: [char; 1] = [':'];
    assert(eq@ =~= seq!['=']);
    assert(colon@ =~= seq![':']);
    let (before, default) = split_at_first(&t, &eq);
    let (name, type_hint) = split_at_first(&before, &colon);
    if name.len() == 0 {
        return Err(ParamSpecError { spec: string_of(&t) });
    }
    Ok(ParamInfo { name: string_of(&name), type_hint, default })
}

// ── Renaming an identifier in text ─────────────────────────────────────────

/// The identifier `w` stands at position `i` of `s` as a whole word.
pub open spec fn word_at(s: Seq<char>, i: int, w: Seq<char>) -> bool {
    &&& occurs_at(s, w, i)
    &&& (i == 0 || !ident_char(s[i - 1]))
    &&& (i + w.len() >= s.len() || !ident_char(s[i + w.len()]))
}

/// The text from position `i` on, with each whole-word occurrence of `old`
/// replaced by `new`; every other character is kept.
pub open spec fn renamed(s: Seq<char>, old: Seq<char>, new: Seq<char>, i: int) -> Seq<char>
    decreases s.len() - i,
{
    if i < 0 || i >= s.len() {
        Seq::empty()
    } else if old.len() > 0 && word_at(s, i, old) {
        new + renamed(s, old, new, i + old.len())
    } else {
        seq![s[i]] + renamed(s, old, new, i + 1)
    }
}

fn is_ident(c: char) -> (r: bool)
    ensures
        r == ident_char(c),
{
    ('0' <= c && c <= '9') || ('A' <= c && c <= 'Z') || ('a' <= c && c <= 'z') || c == '_'
}

/// Rename a whole-word identifier in text (not inside other identifiers).
pub fn rename_identifier_in_text(text: &str, old_name: &str, new_name: &str) -> (r: String)
    requires
        old_name@.len() > 0,
    ensures
        r@ == renamed(text@, old_name@, new_name@, 0),
{
    let t = chars_of(text);
    let o = chars_of(old_name);
    let nc = chars_of(new_name);
    let mut result: Vec<char> = Vec::new();
    let mut i: usize = 0;
    while i < t.len()
        invariant
            t@ == text@,
            o@ == old_name@,
            o@.len() > 0,
            nc@ == new_name@,
            i <= t@.len(),
            result@ + renamed(t@, o@, nc@, i as int) == renamed(t@, o@, nc@, 0),
        decreases t@.len() - i,
    {
        if matches_at(&t, &o, i) {
            let before_ok = i == 0 || !is_ident(t[i - 1]);
            let after_ok = i + o.len() >= t.len() || !is_ident(t[i + o.len()]);
            if before_ok && after_ok {
                let ghost r0 = result@;
                extend(&mut result, &nc);
                assert(result@ + renamed(t@, o@, nc@, i + o@.len()) =~= r0 + renamed(t@, o@, nc@, i as int));
                i += o.len();
                continue;
            }
        }
        let ghost r0 = result@;
        result.push(t[i]);
        assert(result@ + renamed(t@, o@, nc@, i + 1) =~= r0 + renamed(t@, o@, nc@, i as int));
        i += 1;
    }
    assert(result@ =~= renamed(t@, o@, nc@, 0));
    string_of(&result)
}

// ── Call-site arguments ────────────────────────────────────────────────────

/// The texts of a list of strings.
pub open spec fn texts(v: Seq<String>) -> Seq<Seq<char>> {
    v.map_values(|s: String| s@)
}

/// The first `k` old parameters mapped to the arguments passed for them
/// (a parameter with no argument is left out; a later name wins).
pub open spec fn args_by_param(params: Seq<ParamInfo>, args: Seq<Seq<char>>, k: int) -> Map<Seq<char>, Seq<char>>
    decreases k,
{
    if k <= 0 {
        Map::empty()
    } else {
        let m = args_by_param(params, args, k - 1);
        if k - 1 < args.len() {
            m.insert(params[k - 1].name@, args[k - 1])
        } else {
            m
        }
    }
}

/// For each rename in order, the argument of the old name is also filed under the new one.
pub open spec fn with_renames(m: Map<Seq<char>, Seq<char>>, rs: Seq<(String, String)>) -> Map<Seq<char>, Seq<char>>
    decreases rs.len(),
{
    if rs.len() == 0 {
        m
    } else {
        let m1 = with_renames(m, rs.drop_last());
        let o = rs.last().0@;
        let n = rs.last().1@;
        if m1.contains_key(o) {
            m1.insert(n, m1[o])
        } else {
            m1
        }
    }
}

/// `m` without the given names.
pub open spec fn without(m: Map<Seq<char>, Seq<char>>, names: Seq<String>) -> Map<Seq<char>, Seq<char>>
    decreases names.len(),
{
    if names.len() == 0 {
        m
    } else {
        without(m, names.drop_last()).remove(names.last()@)
    }
}

/// Parameter name to argument, after renames and removals.
pub open spec fn call_arg_map(
    old_args: Seq<Seq<char>>,
    old_params: Seq<ParamInfo>,
    remove_params: Seq<String>,
    renames: Seq<(String, String)>,
) -> Map<Seq<char>, Seq<char>> {
    without(with_renames(args_by_param(old_params, old_args, old_params.len() as int), renames), remove_params)
}

/// The argument passed for a new parameter: the old argument, else its
/// default, else `null`.
pub open spec fn param_arg(m: Map<Seq<char>, Seq<char>>, p: ParamInfo) -> Seq<char> {
    if m.contains_key(p.name@) {
        m[p.name@]
    } else {
        match p.default {
            Some(d) => d@,
            None => "null"@,
        }
    }
}

/// The arguments in the order of the new parameters.
pub open spec fn args_in_order(m: Map<Seq<char>, Seq<char>>, ps: Seq<ParamInfo>) -> Seq<Seq<char>> {
    Seq::new(ps.len(), |i: int| param_arg(m, ps[i]))
}

/// The new parameters that get a `null` placeholder.
pub open spec fn placeholder_names(m: Map<Seq<char>, Seq<char>>, ps: Seq<ParamInfo>) -> Seq<Seq<char>>
    decreases ps.len(),
{
    if ps.len() == 0 {
        Seq::empty()
    } else {
        let r = placeholder_names(m, ps.drop_last());
        let p = ps.last();
        if !m.contains_key(p.name@) && p.default is None {
            r.push(p.name@)
        } else {
            r
        }
    }
}

/// The names of a reorder list: comma-separated, each trimmed.
pub open spec fn reorder_names(r: Seq<char>) -> Seq<Seq<char>> {
    split_pieces(r, ',').map_values(|x: Seq<char>| trim(x))
}

/// The arguments of the listed names that have one, in list order.
pub open spec fn picked(m: Map<Seq<char>, Seq<char>>, ns: Seq<Seq<char>>) -> Seq<Seq<char>>
    decreases ns.len(),
{
    if ns.len() == 0 {
        Seq::empty()
    } else {
        let r = picked(m, ns.drop_last());
        if m.contains_key(ns.last()) {
            r.push(m[ns.last()])
        } else {
            r
        }
    }
}

/// The arguments of the new parameters that are not listed, in parameter order.
pub open spec fn unlisted(m: Map<Seq<char>, Seq<char>>, ps: Seq<ParamInfo>, ns: Seq<Seq<char>>) -> Seq<Seq<char>>
    decreases ps.len(),
{
    if ps.len() == 0 {
        Seq::empty()
    } else {
        let r = unlisted(m, ps.drop_last(), ns);
        let p = ps.last();
        if !ns.contains(p.name@) && m.contains_key(p.name@) {
            r.push(m[p.name@])
        } else {
            r
        }
    }
}

/// The new argument list of a call site.
pub open spec fn rewritten_args(
    m: Map<Seq<char>, Seq<char>>,
    new_params: Seq<ParamInfo>,
    remove_params: Seq<String>,
    reorder: Option<Seq<char>>,
) -> Seq<Seq<char>> {
    let plain = args_in_order(m, new_params);
    match reorder {
        Some(r) => {
            let ns = reorder_names(r);
            let re = picked(m, ns) + unlisted(m, new_params, ns);
            if remove_params.len() == 0 && re.len() >= plain.len() {
                re
            } else {
                plain
            }
        },
        None => plain,
    }
}

fn map_of_args(old_args: &[String], old_params: &[ParamInfo]) -> (m: TextMap)
    ensures
        m.wf(),
        m@ == args_by_param(old_params@, texts(old_args@), old_params@.len() as int),
{
    let mut m = TextMap::new();
    let mut i: usize = 0;
    while i < old_params.len()
        invariant
            i <= old_params@.len(),
            m.wf(),
            m@ == args_by_param(old_params@, texts(old_args@), i as int),
        decreases old_params@.len() - i,
    {
        if i < old_args.len() {
            m.insert(chars_of(old_params[i].name.as_str()), chars_of(old_args[i].as_str()));
        }
        i += 1;
    }
    m
}

fn apply_renames(m: &mut TextMap, renames: &[(String, String)])
    requires
        old(m).wf(),
    ensures
        final(m).wf(),
        final(m)@ == with_renames(old(m)@, renames@),
{
    let ghost m0 = m@;
    let mut i: usize = 0;
    while i < renames.len()
        invariant
            i <= renames@.len(),
            m.wf(),
            m@ == with_renames(m0, renames@.take(i as int)),
        decreases renames@.len() - i,
    {
        assert(renames@.take(i + 1).drop_last() =~= renames@.take(i as int));
        let o = chars_of(renames[i].0.as_str());
        match m.get(&o) {
            Some(arg) => {
                m.insert(chars_of(renames[i].1.as_str()), arg);
            },
            None => {},
        }
        i += 1;
    }
    assert(renames@.take(i as int) =~= renames@);
}

fn apply_removals(m: &mut TextMap, names: &[String])
    requires
        old(m).wf(),
    ensures
        final(m).wf(),
        final(m)@ == without(old(m)@, names@),
{
    let ghost m0 = m@;
    let mut i: usize = 0;
    while i < names.len()
        invariant
            i <= names@.len(),
            m.wf(),
            m@ == without(m0, names@.take(i as int)),
        decreases names@.len() - i,
    {
        assert(names@.take(i + 1).drop_last() =~= names@.take(i as int));
        let k = chars_of(names[i].as_str());
        m.remove(&k);
        i += 1;
    }
    assert(names@.take(i as int) =~= names@);
}

fn args_for_params(m: &TextMap, ps: &[ParamInfo]) -> (r: (Vec<String>, Vec<String>))
    requires
        m.wf(),
    ensures
        texts(r.0@) == args_in_order(m@, ps@),
        texts(r.1@) == placeholder_names(m@, ps@),
{
    let mut args: Vec<String> = Vec::new();
    let mut holes: Vec<String> = Vec::new();
    let mut i: usize = 0;
    while i < ps.len()
        invariant
            i <= ps@.len(),
            m.wf(),
            texts(args@) == args_in_order(m@, ps@.take(i as int)),
            texts(holes@) == placeholder_names(m@, ps@.take(i as int)),
        decreases ps@.len() - i,
    {
        let ghost a0 = args@;
        let ghost h0 = holes@;
        assert(ps@.take(i + 1).drop_last() =~= ps@.take(i as int));
        let name = chars_of(ps[i].name.as_str());
        match m.get(&name) {
            Some(arg) => {
                args.push(string_of(&arg));
            },
            None => {
                match &ps[i].default {
                    Some(d) => {
                        let c = chars_of(d.as_str());
                        args.push(string_of(&c));
                    },
                    None => {
                        args.push(string_of(&['n', 'u', 'l', 'l']));
                        proof {
                            reveal_strlit("null");
                        }
                        assert(seq!['n', 'u', 'l', 'l'] =~= "null"@);
                        let c = chars_of(ps[i].name.as_str());
                        holes.push(string_of(&c));
                    },
                }
            },
        }
        assert(texts(args@) =~= texts(a0).push(param_arg(m@, ps@[i as int])));
        assert(args_in_order(m@, ps@.take(i + 1)) =~= args_in_order(m@, ps@.take(i as int)).push(
            param_arg(m@, ps@[i as int]),
        ));
        assert(texts(holes@) =~= placeholder_names(m@, ps@.take(i + 1)));
        i += 1;
    }
    assert(ps@.take(i as int) =~= ps@);
    (args, holes)
}

fn names_of_list(r: &str) -> (ns: Vec<Vec<char>>)
    ensures
        ns@.len() == reorder_names(r@).len(),
        forall|i: int| 0 <= i < ns@.len() ==> (#[trigger] ns@[i])@ == reorder_names(r@)[i],
{
    let rc = chars_of(r);
    let pieces = split_on(&rc, ',');
    let mut ns: Vec<Vec<char>> = Vec::new();
    let mut i: usize = 0;
    while i < pieces.len()
        invariant
            i <= pieces@.len(),
            pieces@.len() == split_pieces(r@, ',').len(),
            forall|j: int| 0 <= j < pieces@.len() ==> (#[trigger] pieces@[j])@ == split_pieces(r@, ',')[j],
            ns@.len() == i,
            forall|j: int| 0 <= j < i ==> (#[trigger] ns@[j])@ == trim(split_pieces(r@, ',')[j]),
        decreases pieces@.len() - i,
    {
        ns.push(trimmed(&pieces[i]));
        i += 1;
    }
    ns
}

fn listed(ns: &Vec<Vec<char>>, x: &[char]) -> (r: bool)
    ensures
        r == ns@.map_values(|v: Vec<char>| v@).contains(x@),
{
    let ghost vs = ns@.map_values(|v: Vec<char>| v@);
    let mut i: usize = 0;
    while i < ns.len()
        invariant
            i <= ns@.len(),
            vs == ns@.map_values(|v: Vec<char>| v@),
            forall|j: int| 0 <= j < i ==> vs[j] != x@,
        decreases ns@.len() - i,
    {
        if seq_eq(&ns[i], x) {
            assert(vs[i as int] == x@);
            return true;
        }
        i += 1;
    }
    false
}

fn reordered_args(m: &TextMap, ps: &[ParamInfo], r: &str) -> (out: Vec<String>)
    requires
        m.wf(),
    ensures
        texts(out@) == picked(m@, reorder_names(r@)) + unlisted(m@, ps@, reorder_names(r@)),
{
    let ns = names_of_list(r);
    let ghost nv = reorder_names(r@);
    assert(ns@.map_values(|v: Vec<char>| v@) =~= nv);
    let mut out: Vec<String> = Vec::new();
    let mut i: usize = 0;
    while i < ns.len()
        invariant
            i <= ns@.len(),
            m.wf(),
            nv == ns@.map_values(|v: Vec<char>| v@),
            texts(out@) == picked(m@, nv.take(i as int)),
        decreases ns@.len() - i,
    {
        let ghost o0 = out@;
        assert(nv.take(i + 1).drop_last() =~= nv.take(i as int));
        match m.get(&ns[i]) {
            Some(arg) => {
                out.push(string_of(&arg));
            },
            None => {},
        }
        assert(texts(out@) =~= picked(m@, nv.take(i + 1)));
        i += 1;
    }
    assert(nv.take(i as int) =~= nv);
    let ghost head = texts(out@);
    let mut k: usize = 0;
    while k < ps.len()
        invariant
            k <= ps@.len(),
            m.wf(),
            nv == ns@.map_values(|v: Vec<char>| v@),
            texts(out@) == head + unlisted(m@, ps@.take(k as int), nv),
        decreases ps@.len() - k,
    {
        let ghost o0 = out@;
        assert(ps@.take(k + 1).drop_last() =~= ps@.take(k as int));
        assert(ps@.take(k + 1).last() == ps@[k as int]);
        let name = chars_of(ps[k].name.as_str());
        let is_listed = listed(&ns, &name);
        assert(is_listed == nv.contains(ps@[k as int].name@));
        if !is_listed {
            match m.get(&name) {
                Some(arg) => {
                    out.push(string_of(&arg));
                    assert(texts(out@) =~= texts(o0).push(m@[ps@[k as int].name@]));
                },
                None => {},
            }
        }
        assert(unlisted(m@, ps@.take(k + 1), nv) == if !nv.contains(ps@[k as int].name@)
            && m@.contains_key(ps@[k as int].name@) {
            unlisted(m@, ps@.take(k as int), nv).push(m@[ps@[k as int].name@])
        } else {
            unlisted(m@, ps@.take(k as int), nv)
        });
        assert(texts(out@) =~= head + unlisted(m@, ps@.take(k + 1), nv));
        k += 1;
    }
    assert(ps@.take(k as int) =~= ps@);
    out
}

/// Rewrite the arguments of a call site for a changed signature. Returns the
/// new argument list and the names of added parameters that got a `null`
/// placeholder. Renames apply in the order given.
pub fn rewrite_call_arguments(
    old_args: &[String],
    old_params: &[ParamInfo],
    new_params: &[ParamInfo],
    remove_params: &[String],
    _add_params: &[String],
    rename_map: &[(String, String)],
    reorder: Option<&str>,
) -> (r: (Vec<String>, Vec<String>))
    ensures
        texts(r.0@) == rewritten_args(
            call_arg_map(texts(old_args@), old_params@, remove_params@, rename_map@),
            new_params@,
            remove_params@,
            match reorder {
                Some(t) => Some(t@),
                None => None,
            },
        ),
        texts(r.1@) == placeholder_names(
            call_arg_map(texts(old_args@), old_params@, remove_params@, rename_map@),
            new_params@,
        ),
{
    let mut m = map_of_args(old_args, old_params);
    apply_renames(&mut m, rename_map);
    apply_removals(&mut m, remove_params);
    let (new_args, placeholders) = args_for_params(&m, new_params);
    match reorder {
        Some(r) => {
            if remove_params.len() == 0 {
                let re = reordered_args(&m, new_params, r);
                if re.len() >= new_args.len() {
                    return (re, placeholders);
                }
            }
        },
        None => {},
    }
    (new_args, placeholders)
}

// ── Applying the parameter changes ─────────────────────────────────────────

/// A parameter as plain values: name, type hint, default.
pub type ParamView = (Seq<char>, Option<Seq<char>>, Option<Seq<char>>);

/// The parameters as plain values.
pub open spec fn pviews(v: Seq<ParamInfo>) -> Seq<ParamView> {
    v.map_values(|p: ParamInfo| param_view(p))
}

/// The first of the first `k` parameters named `n`.
pub open spec fn pos_in(ps: Seq<ParamView>, n: Seq<char>, k: int) -> Option<int>
    decreases k,
{
    if k <= 0 || k > ps.len() {
        None
    } else {
        match pos_in(ps, n, k - 1) {
            Some(i) => Some(i),
            None => if ps[k - 1].0 == n {
                Some(k - 1)
            } else {
                None
            },
        }
    }
}

/// The first parameter named `n`.
pub open spec fn pos_of(ps: Seq<ParamView>, n: Seq<char>) -> Option<int> {
    pos_in(ps, n, ps.len() as int)
}

/// The parameters after removing each listed name, in order.
pub open spec fn after_removals(ps: Seq<ParamView>, rs: Seq<Seq<char>>) -> Result<Seq<ParamView>, Seq<char>>
    decreases rs.len(),
{
    if rs.len() == 0 {
        Ok(ps)
    } else {
        match after_removals(ps, rs.drop_last()) {
            Err(e) => Err(e),
            Ok(q) => match pos_of(q, rs.last()) {
                None => Err("parameter '"@ + rs.last() + "' not found"@),
                Some(i) => Ok(q.remove(i)),
            },
        }
    }
}

/// One rename `old=new`: the parameter named `old` takes the name `new`.
pub open spec fn rename_step(q: Seq<ParamView>, pairs: Seq<(Seq<char>, Seq<char>)>, r: Seq<char>) -> Result<(Seq<ParamView>, Seq<(Seq<char>, Seq<char>)>), Seq<char>> {
    let (o, n) = split_first(r, seq!['=']);
    match n {
        None => Err("invalid --rename-param format: '"@ + r + "' (expected 'old_name=new_name')"@),
        Some(nn) => if o.len() == 0 || nn.len() == 0 {
            Err("invalid --rename-param: both old and new names must be non-empty"@)
        } else {
            match pos_of(q, o) {
                None => Err("parameter '"@ + o + "' not found for rename"@),
                Some(i) => Ok((q.update(i, (nn, q[i].1, q[i].2)), pairs.push((o, nn)))),
            }
        },
    }
}

/// The parameters after each rename, in order, and the renames done.
pub open spec fn after_renames(ps: Seq<ParamView>, rs: Seq<Seq<char>>) -> Result<(Seq<ParamView>, Seq<(Seq<char>, Seq<char>)>), Seq<char>>
    decreases rs.len(),
{
    if rs.len() == 0 {
        Ok((ps, Seq::empty()))
    } else {
        match after_renames(ps, rs.drop_last()) {
            Err(e) => Err(e),
            Ok((q, pairs)) => rename_step(q, pairs, rs.last()),
        }
    }
}

/// One addition: the parsed spec appended, unless its name is empty or taken.
pub open spec fn add_step(q: Seq<ParamView>, a: Seq<char>) -> Result<Seq<ParamView>, Seq<char>> {
    if param_name(a).len() == 0 {
        Err("empty parameter name in '"@ + trim(a) + "'"@)
    } else if pos_of(q, param_name(a)) is Some {
        Err("parameter '"@ + param_name(a) + "' already exists"@)
    } else {
        Ok(q.push((param_name(a), type_of(a), default_of(a))))
    }
}

/// The parameters after each addition, in order.
pub open spec fn after_additions(ps: Seq<ParamView>, adds: Seq<Seq<char>>) -> Result<Seq<ParamView>, Seq<char>>
    decreases adds.len(),
{
    if adds.len() == 0 {
        Ok(ps)
    } else {
        match after_additions(ps, adds.drop_last()) {
            Err(e) => Err(e),
            Ok(q) => add_step(q, adds.last()),
        }
    }
}

/// The listed names taken out of `rest` in list order (`taken`), and what is left.
pub open spec fn reorder_take(rest: Seq<ParamView>, ns: Seq<Seq<char>>) -> Result<(Seq<ParamView>, Seq<ParamView>), Seq<char>>
    decreases ns.len(),
{
    if ns.len() == 0 {
        Ok((Seq::empty(), rest))
    } else {
        match reorder_take(rest, ns.drop_last()) {
            Err(e) => Err(e),
            Ok((taken, left)) => match pos_of(left, ns.last()) {
                None => Err("parameter '"@ + ns.last() + "' not found for reorder"@),
                Some(i) => Ok((taken.push(left[i]), left.remove(i))),
            },
        }
    }
}

/// The parameters in the listed order, the unlisted ones after them.
pub open spec fn after_reorder(ps: Seq<ParamView>, reorder: Option<Seq<char>>) -> Result<Seq<ParamView>, Seq<char>> {
    match reorder {
        None => Ok(ps),
        Some(r) => match reorder_take(ps, reorder_names(r)) {
            Err(e) => Err(e),
            Ok((taken, left)) => Ok(taken + left),
        },
    }
}

/// The new parameter list and the renames done, or the message of the first error.
pub open spec fn param_changes(
    ps: Seq<ParamView>,
    removes: Seq<Seq<char>>,
    renames: Seq<Seq<char>>,
    adds: Seq<Seq<char>>,
    reorder: Option<Seq<char>>,
) -> Result<(Seq<ParamView>, Seq<(Seq<char>, Seq<char>)>), Seq<char>> {
    match after_removals(ps, removes) {
        Err(e) => Err(e),
        Ok(q1) => match after_renames(q1, renames) {
            Err(e) => Err(e),
            Ok((q2, pairs)) => match after_additions(q2, adds) {
                Err(e) => Err(e),
                Ok(q3) => match after_reorder(q3, reorder) {
                    Err(e) => Err(e),
                    Ok(q4) => Ok((q4, pairs)),
                },
            },
        },
    }
}

fn position(ps: &Vec<ParamInfo>, n: &str) -> (r: Option<usize>)
    ensures
        match r {
            Some(i) => i < ps@.len() && pos_of(pviews(ps@), n@) == Some(i as int),
            None => pos_of(pviews(ps@), n@) is None,
        },
{
    let ghost pv = pviews(ps@);
    let mut i: usize = 0;
    while i < ps.len()
        invariant
            i <= ps@.len(),
            pv == pviews(ps@),
            pos_in(pv, n@, i as int) is None,
        decreases ps@.len() - i,
    {
        if str_eq(ps[i].name.as_str(), n) {
            assert(pos_in(pv, n@, i + 1) == Some(i as int));
            proof {
                lemma_pos_found(pv, n@, i + 1, pv.len() as int);
            }
            return Some(i);
        }
        i += 1;
    }
    None
}

proof fn lemma_pos_found(ps: Seq<ParamView>, n: Seq<char>, k: int, m: int)
    requires
        0 <= k <= m <= ps.len(),
        pos_in(ps, n, k) is Some,
    ensures
        pos_in(ps, n, m) == pos_in(ps, n, k),
    decreases m - k,
{
    if k < m {
        lemma_pos_found(ps, n, k, m - 1);
    }
}

fn copy_opt(o: &Option<String>) -> (r: Option<String>)
    ensures
        opt_view(r) == opt_view(*o),
{
    match o {
        Some(s) => Some(String::from_str(s.as_str())),
        None => None,
    }
}

fn copy_param(p: &ParamInfo) -> (r: ParamInfo)
    ensures
        param_view(r) == param_view(*p),
{
    ParamInfo { name: String::from_str(p.name.as_str()), type_hint: copy_opt(&p.type_hint), default: copy_opt(&p.default) }
}

/// Why the signature cannot be changed: the message.
#[derive(Debug)]
pub struct SignatureError {
    pub message: String,
}

fn remove_params(ps: &mut Vec<ParamInfo>, removes: &[String]) -> (r: Result<(), SignatureError>)
    ensures
        match r {
            Ok(()) => after_removals(pviews(old(ps)@), string_texts(removes@)) == Ok::<_, Seq<char>>(pviews(final(ps)@)),
            Err(e) => after_removals(pviews(old(ps)@), string_texts(removes@)) == Err::<Seq<ParamView>, _>(e.message@),
        },
{
    let ghost p0 = pviews(ps@);
    let mut k: usize = 0;
    while k < removes.len()
        invariant
            k <= removes@.len(),
            p0 == pviews(old(ps)@),
            after_removals(p0, string_texts(removes@).take(k as int)) == Ok::<_, Seq<char>>(pviews(ps@)),
        decreases removes@.len() - k,
    {
        assert(string_texts(removes@).take(k + 1).drop_last() =~= string_texts(removes@).take(k as int));
        match position(ps, removes[k].as_str()) {
            Some(i) => {
                let ghost before = pviews(ps@);
                ps.remove(i);
                assert(pviews(ps@) =~= before.remove(i as int));
            },
            None => {
                let msg = concat_strs(&["parameter '", removes[k].as_str(), "' not found"]);
                proof {
                    reveal_with_fuel(concat_views, 4);
                    assert(string_texts(removes@).take(k + 1).last() == removes@[k as int]@);
                    assert(after_removals(p0, string_texts(removes@).take(k + 1)) == Err::<Seq<ParamView>, _>(msg@));
                    lemma_removals_err(p0, string_texts(removes@), k as int + 1);
                }
                return Err(SignatureError { message: msg });
            },
        }
        k += 1;
    }
    assert(string_texts(removes@).take(k as int) =~= string_texts(removes@));
    Ok(())
}

proof fn lemma_removals_err(ps: Seq<ParamView>, rs: Seq<Seq<char>>, k: int)
    requires
        0 <= k <= rs.len(),
        after_removals(ps, rs.take(k)) is Err,
    ensures
        after_removals(ps, rs) == after_removals(ps, rs.take(k)),
    decreases rs.len() - k,
{
    if k < rs.len() {
        assert(rs.take(k + 1).drop_last() =~= rs.take(k));
        lemma_removals_err(ps, rs, k + 1);
    } else {
        assert(rs.take(k) =~= rs);
    }
}

proof fn lemma_renames_err(ps: Seq<ParamView>, rs: Seq<Seq<char>>, k: int)
    requires
        0 <= k <= rs.len(),
        after_renames(ps, rs.take(k)) is Err,
    ensures
        after_renames(ps, rs) == after_renames(ps, rs.take(k)),
    decreases rs.len() - k,
{
    if k < rs.len() {
        assert(rs.take(k + 1).drop_last() =~= rs.take(k));
        lemma_renames_err(ps, rs, k + 1);
    } else {
        assert(rs.take(k) =~= rs);
    }
}

/// The renames as plain values.
pub open spec fn pair_views(v: Seq<(String, String)>) -> Seq<(Seq<char>, Seq<char>)> {
    v.map_values(|p: (String, String)| (p.0@, p.1@))
}

#[verifier::rlimit(80)]
fn rename_one(ps: &mut Vec<ParamInfo>, pairs: &mut Vec<(String, String)>, r: &str) -> (res: Result<(), SignatureError>)
    ensures
        match res {
            Ok(()) => rename_step(pviews(old(ps)@), pair_views(old(pairs)@), r@) == Ok::<_, Seq<char>>(
                (pviews(final(ps)@), pair_views(final(pairs)@)),
            ),
            Err(e) => rename_step(pviews(old(ps)@), pair_views(old(pairs)@), r@) == Err::<
                (Seq<ParamView>, Seq<(Seq<char>, Seq<char>)>),
                _,
            >(e.message@),
        },
{
    proof {
        reveal_with_fuel(concat_views, 4);
    }
    let rc = chars_of(r);
    let eq: [char; 1] = ['='];
    assert(eq@ =~= seq!['=']);
    let (o, n) = split_at_first(&rc, &eq);
    let nn = match n {
        None => {
            return Err(SignatureError { message: concat_strs(&["invalid --rename-param format: '", r, "' (expected 'old_name=new_name')"]) });
        },
        Some(x) => x,
    };
    let nc = chars_of(nn.as_str());
    if o.len() == 0 || nc.len() == 0 {
        return Err(SignatureError { message: concat_strs(&["invalid --rename-param: both old and new names must be non-empty"]) });
    }
    let os = string_of(&o);
    match position(ps, os.as_str()) {
        None => {
            let m = concat_strs(&["parameter '", os.as_str(), "' not found for rename"]);
            Err(SignatureError { message: m })
        },
        Some(i) => {
            apply_rename(ps, pairs, i, os, nn);
            Ok(())
        },
    }
}

fn apply_rename(ps: &mut Vec<ParamInfo>, pairs: &mut Vec<(String, String)>, i: usize, o: String, nn: String)
    requires
        i < old(ps)@.len(),
    ensures
        pviews(final(ps)@) == pviews(old(ps)@).update(i as int, (nn@, pviews(old(ps)@)[i as int].1, pviews(old(ps)@)[i as int].2)),
        pair_views(final(pairs)@) == pair_views(old(pairs)@).push((o@, nn@)),
{
    let ghost before = pviews(ps@);
    let ghost pb = pair_views(pairs@);
    let q = ParamInfo { name: String::from_str(nn.as_str()), type_hint: copy_opt(&ps[i].type_hint), default: copy_opt(&ps[i].default) };
    ps.set(i, q);
    assert(pviews(ps@) =~= before.update(i as int, (nn@, before[i as int].1, before[i as int].2)));
    pairs.push((o, nn));
    assert(pair_views(pairs@) =~= pb.push((o@, nn@)));
}

#[verifier::rlimit(60)]
#[verifier::spinoff_prover]
fn rename_params(ps: &mut Vec<ParamInfo>, renames: &[String]) -> (r: Result<Vec<(String, String)>, SignatureError>)
    ensures
        match r {
            Ok(pairs) => after_renames(pviews(old(ps)@), string_texts(renames@)) == Ok::<_, Seq<char>>(
                (pviews(final(ps)@), pair_views(pairs@)),
            ),
            Err(e) => after_renames(pviews(old(ps)@), string_texts(renames@)) == Err::<
                (Seq<ParamView>, Seq<(Seq<char>, Seq<char>)>),
                _,
            >(e.message@),
        },
{
    let ghost p0 = pviews(ps@);
    let ghost rv = string_texts(renames@);
    let mut pairs: Vec<(String, String)> = Vec::new();
    let mut k: usize = 0;
    assert(pair_views(pairs@) =~= Seq::<(Seq<char>, Seq<char>)>::empty());
    assert(rv.take(0) =~= Seq::<Seq<char>>::empty());
    while k < renames.len()
        invariant
            k <= renames@.len(),
            rv == string_texts(renames@),
            rv.len() == renames@.len(),
            p0 == pviews(old(ps)@),
            after_renames(p0, rv.take(k as int)) == Ok::<_, Seq<char>>((pviews(ps@), pair_views(pairs@))),
        decreases renames@.len() - k,
    {
        assert(rv.take(k + 1).drop_last() =~= rv.take(k as int));
        assert(rv.take(k + 1).last() == renames@[k as int]@);
        match rename_one(ps, &mut pairs, renames[k].as_str()) {
            Ok(()) => {},
            Err(e) => {
                proof {
                    lemma_renames_err(p0, rv, k as int + 1);
                }
                return Err(e);
            },
        }
        k += 1;
    }
    assert(rv.take(k as int) =~= rv);
    Ok(pairs)
}

proof fn lemma_additions_err(ps: Seq<ParamView>, rs: Seq<Seq<char>>, k: int)
    requires
        0 <= k <= rs.len(),
        after_additions(ps, rs.take(k)) is Err,
    ensures
        after_additions(ps, rs) == after_additions(ps, rs.take(k)),
    decreases rs.len() - k,
{
    if k < rs.len() {
        assert(rs.take(k + 1).drop_last() =~= rs.take(k));
        lemma_additions_err(ps, rs, k + 1);
    } else {
        assert(rs.take(k) =~= rs);
    }
}

fn add_params(ps: &mut Vec<ParamInfo>, adds: &[String]) -> (r: Result<(), SignatureError>)
    ensures
        match r {
            Ok(()) => after_additions(pviews(old(ps)@), string_texts(adds@)) == Ok::<_, Seq<char>>(pviews(final(ps)@)),
            Err(e) => after_additions(pviews(old(ps)@), string_texts(adds@)) == Err::<Seq<ParamView>, _>(e.message@),
        },
{
    let ghost p0 = pviews(ps@);
    let mut k: usize = 0;
    while k < adds.len()
        invariant
            k <= adds@.len(),
            p0 == pviews(old(ps)@),
            after_additions(p0, string_texts(adds@).take(k as int)) == Ok::<_, Seq<char>>(pviews(ps@)),
        decreases adds@.len() - k,
    {
        assert(string_texts(adds@).take(k + 1).drop_last() =~= string_texts(adds@).take(k as int));
        assert(string_texts(adds@).take(k + 1).last() == adds@[k as int]@);
        let parsed = parse_param_spec(adds[k].as_str());
        match parsed {
            Err(e) => {
                let m = e.message();
                proof {
                    lemma_additions_err(p0, string_texts(adds@), k as int + 1);
                }
                return Err(SignatureError { message: m });
            },
            Ok(p) => {
                if position(ps, p.name.as_str()).is_some() {
                    let m = concat_strs(&["parameter '", p.name.as_str(), "' already exists"]);
                    proof {
                        reveal_with_fuel(concat_views, 4);
                        lemma_additions_err(p0, string_texts(adds@), k as int + 1);
                    }
                    return Err(SignatureError { message: m });
                }
                let ghost before = pviews(ps@);
                ps.push(p);
                assert(pviews(ps@) =~= before.push(param_view(p)));
            },
        }
        k += 1;
    }
    assert(string_texts(adds@).take(k as int) =~= string_texts(adds@));
    Ok(())
}

proof fn lemma_take_err(ps: Seq<ParamView>, ns: Seq<Seq<char>>, k: int)
    requires
        0 <= k <= ns.len(),
        reorder_take(ps, ns.take(k)) is Err,
    ensures
        reorder_take(ps, ns) == reorder_take(ps, ns.take(k)),
    decreases ns.len() - k,
{
    if k < ns.len() {
        assert(ns.take(k + 1).drop_last() =~= ns.take(k));
        lemma_take_err(ps, ns, k + 1);
    } else {
        assert(ns.take(k) =~= ns);
    }
}

fn reorder_params(ps: &mut Vec<ParamInfo>, reorder: &str) -> (r: Result<(), SignatureError>)
    ensures
        match r {
            Ok(()) => after_reorder(pviews(old(ps)@), Some(reorder@)) == Ok::<_, Seq<char>>(pviews(final(ps)@)),
            Err(e) => after_reorder(pviews(old(ps)@), Some(reorder@)) == Err::<Seq<ParamView>, _>(e.message@),
        },
{
    let ghost p0 = pviews(ps@);
    let rc = chars_of(reorder);
    let pieces = split_on(&rc, ',');
    let mut names: Vec<Vec<char>> = Vec::new();
    let mut j: usize = 0;
    while j < pieces.len()
        invariant
            j <= pieces@.len(),
            pieces@.len() == split_pieces(reorder@, ',').len(),
            forall|i: int| 0 <= i < pieces@.len() ==> (#[trigger] pieces@[i])@ == split_pieces(reorder@, ',')[i],
            names@.map_values(|v: Vec<char>| v@) == reorder_names(reorder@).take(j as int),
        decreases pieces@.len() - j,
    {
        let ghost prev = names@.map_values(|v: Vec<char>| v@);
        let t = trimmed(&pieces[j]);
        assert(t@ == reorder_names(reorder@)[j as int]);
        names.push(t);
        assert(names@.map_values(|v: Vec<char>| v@) =~= prev.push(reorder_names(reorder@)[j as int]));
        assert(names@.map_values(|v: Vec<char>| v@) =~= reorder_names(reorder@).take(j + 1));
        j += 1;
    }
    assert(reorder_names(reorder@).take(j as int) =~= reorder_names(reorder@));
    let ghost ns = reorder_names(reorder@);
    let mut left: Vec<ParamInfo> = Vec::new();
    std::mem::swap(&mut left, ps);
    let mut taken: Vec<ParamInfo> = Vec::new();
    let mut k: usize = 0;
    assert(pviews(taken@) =~= Seq::<ParamView>::empty());
    while k < names.len()
        invariant
            k <= names@.len(),
            names@.map_values(|v: Vec<char>| v@) == ns,
            ns == reorder_names(reorder@),
            p0 == pviews(old(ps)@),
            reorder_take(p0, ns.take(k as int)) == Ok::<_, Seq<char>>((pviews(taken@), pviews(left@))),
        decreases names@.len() - k,
    {
        assert(ns.take(k + 1).drop_last() =~= ns.take(k as int));
        assert(ns.take(k + 1).last() == names@[k as int]@);
        let nm = string_of(&names[k]);
        match position(&left, nm.as_str()) {
            Some(i) => {
                let ghost tb = pviews(taken@);
                let ghost lb = pviews(left@);
                let p = left.remove(i);
                taken.push(p);
                assert(pviews(taken@) =~= tb.push(lb[i as int]));
                assert(pviews(left@) =~= lb.remove(i as int));
            },
            None => {
                let m = concat_strs(&["parameter '", nm.as_str(), "' not found for reorder"]);
                proof {
                    reveal_with_fuel(concat_views, 4);
                    assert(m@ == "parameter '"@ + ns[k as int] + "' not found for reorder"@);
                    assert(reorder_take(p0, ns.take(k + 1)) == Err::<(Seq<ParamView>, Seq<ParamView>), _>(m@));
                    lemma_take_err(p0, ns, k as int + 1);
                    assert(after_reorder(p0, Some(reorder@)) == Err::<Seq<ParamView>, Seq<char>>(m@));
                }
                return Err(SignatureError { message: m });
            },
        }
        k += 1;
    }
    assert(ns.take(k as int) =~= ns);
    let mut q: usize = 0;
    let ghost t0 = pviews(taken@);
    while q < left.len()
        invariant
            q <= left@.len(),
            pviews(taken@) == t0 + pviews(left@).take(q as int),
        decreases left@.len() - q,
    {
        let ghost tb = pviews(taken@);
        let c = copy_param(&left[q]);
        assert(param_view(c) == pviews(left@)[q as int]);
        taken.push(c);
        assert(pviews(taken@) =~= tb.push(pviews(left@)[q as int]));
        assert(pviews(left@).take(q + 1) =~= pviews(left@).take(q as int).push(pviews(left@)[q as int]));
        assert(pviews(taken@) =~= t0 + pviews(left@).take(q + 1));
        q += 1;
    }
    assert(pviews(left@).take(q as int) =~= pviews(left@));
    *ps = taken;
    Ok(())
}

/// Apply the parameter changes in order: removals, renames, additions, then
/// the reorder. Returns the new parameters and the renames done.
pub fn apply_param_changes(
    params: Vec<ParamInfo>,
    removes: &[String],
    renames: &[String],
    adds: &[String],
    reorder: Option<&str>,
) -> (r: Result<(Vec<ParamInfo>, Vec<(String, String)>), SignatureError>)
    ensures
        match r {
            Ok((ps, pairs)) => param_changes(
                pviews(params@),
                string_texts(removes@),
                string_texts(renames@),
                string_texts(adds@),
                opt_str(reorder),
            ) == Ok::<_, Seq<char>>((pviews(ps@), pair_views(pairs@))),
            Err(e) => param_changes(
                pviews(params@),
                string_texts(removes@),
                string_texts(renames@),
                string_texts(adds@),
                opt_str(reorder),
            ) == Err::<(Seq<ParamView>, Seq<(Seq<char>, Seq<char>)>), _>(e.message@),
        },
{
    let mut ps = params;
    remove_params(&mut ps, removes)?;
    let pairs = rename_params(&mut ps, renames)?;
    add_params(&mut ps, adds)?;
    match reorder {
        Some(r) => {
            reorder_params(&mut ps, r)?;
        },
        None => {},
    }
    Ok((ps, pairs))
}

/// The view of an optional string slice.
pub open spec fn opt_str(o: Option<&str>) -> Option<Seq<char>> {
    match o {
        Some(t) => Some(t@),
        None => None,
    }
}

// ── Signature text ─────────────────────────────────────────────────────────

/// A parameter as written: `name[: type][ = default]`.
pub open spec fn param_text(p: ParamView) -> Seq<char> {
    p.0 + (match p.1 {
        Some(t) => seq![':', ' '] + t,
        None => Seq::empty(),
    }) + (match p.2 {
        Some(d) => seq![' ', '=', ' '] + d,
        None => Seq::empty(),
    })
}

/// The parameter list as written, comma-separated.
pub open spec fn params_text(ps: Seq<ParamView>) -> Seq<char> {
    join(ps.map_values(|p: ParamView| param_text(p)), seq![',', ' '])
}

/// The parameter list as written.
pub fn params_string(ps: &[ParamInfo]) -> (r: String)
    ensures
        r@ == params_text(pviews(ps@)),
{
    let mut parts: Vec<Vec<char>> = Vec::new();
    let mut i: usize = 0;
    while i < ps.len()
        invariant
            i <= ps@.len(),
            parts@.map_values(|v: Vec<char>| v@) == pviews(ps@).take(i as int).map_values(|p: ParamView| param_text(p)),
        decreases ps@.len() - i,
    {
        let p = &ps[i];
        let mut t = chars_of(p.name.as_str());
        match &p.type_hint {
            Some(th) => {
                t.push(':');
                t.push(' ');
                crate::text::extend_str(&mut t, th.as_str());
            },
            None => {},
        }
        match &p.default {
            Some(d) => {
                t.push(' ');
                t.push('=');
                t.push(' ');
                crate::text::extend_str(&mut t, d.as_str());
            },
            None => {},
        }
        assert(t@ =~= param_text(param_view(*p)));
        let ghost prev = parts@.map_values(|v: Vec<char>| v@);
        parts.push(t);
        assert(parts@.map_values(|v: Vec<char>| v@) =~= prev.push(param_text(param_view(*p))));
        assert(pviews(ps@).take(i + 1) =~= pviews(ps@).take(i as int).push(param_view(*p)));
        i += 1;
    }
    assert(pviews(ps@).take(i as int) =~= pviews(ps@));
    let sep: [char; 2] = [',', ' '];
    assert(sep@ =~= seq![',', ' ']);
    string_of(&crate::text::join_lines(&parts, &sep))
}

/// `func name(params)`.
pub open spec fn signature_text(name: Seq<char>, ps: Seq<ParamView>) -> Seq<char> {
    "func "@ + name + "("@ + params_text(ps) + ")"@
}

/// The signature line of a function with these parameters.
pub fn signature_string(name: &str, ps: &[ParamInfo]) -> (r: String)
    ensures
        r@ == signature_text(name@, pviews(ps@)),
{
    let p = params_string(ps);
    let r = concat_strs(&["func ", name, "(", p.as_str(), ")"]);
    proof {
        reveal_with_fuel(concat_views, 6);
    }
    r
}

// ── Renames in a body ──────────────────────────────────────────────────────

/// The renames as a map from old to new name (a later rename of a name wins).
pub open spec fn pairs_map(pairs: Seq<(Seq<char>, Seq<char>)>) -> Map<Seq<char>, Seq<char>>
    decreases pairs.len(),
{
    if pairs.len() == 0 {
        Map::empty()
    } else {
        pairs_map(pairs.drop_last()).insert(pairs.last().0, pairs.last().1)
    }
}

/// The renames of identifiers in a subtree, in pre-order; strings and
/// comments are left alone.
pub open spec fn ident_reps(n: SyntaxNode, src: Seq<char>, m: Map<Seq<char>, Seq<char>>) -> Seq<(int, int, Seq<char>)>
    decreases n, n.children@.len() + 1,
{
    if n.kind@ == "string"@ || n.kind@ == "comment"@ {
        Seq::empty()
    } else if n.kind@ == "identifier"@ && m.contains_key(text_of(src, n)) {
        seq![(n.start_byte as int, n.end_byte as int, m[text_of(src, n)])]
    } else {
        ident_reps_in_children(n, src, m, n.children@.len() as int)
    }
}

/// The renames under the first `k` children.
pub open spec fn ident_reps_in_children(n: SyntaxNode, src: Seq<char>, m: Map<Seq<char>, Seq<char>>, k: int) -> Seq<(int, int, Seq<char>)>
    decreases n, k,
{
    if k <= 0 || k > n.children@.len() {
        Seq::empty()
    } else {
        ident_reps_in_children(n, src, m, k - 1) + ident_reps(n.children@[k - 1], src, m)
    }
}

fn collect_identifier_replacements(node: &SyntaxNode, source: &str, map: &TextMap, out: &mut Vec<(usize, usize, Vec<char>)>)
    requires
        tree_ok(source@, *node),
        well_nested(*node),
        map.wf(),
        sorted_reps(rep_view(old(out)@)),
        spans_in(source@, rep_view(old(out)@)),
        old(out)@.len() > 0 ==> old(out)@.last().1 <= node.start_byte,
    ensures
        rep_view(final(out)@) == rep_view(old(out)@) + ident_reps(*node, source@, map@),
        sorted_reps(rep_view(final(out)@)),
        spans_in(source@, rep_view(final(out)@)),
        final(out)@.len() > 0 ==> final(out)@.last().1 <= node.end_byte,
        final(out)@.len() > old(out)@.len() ==> final(out)@[old(out)@.len() as int].0 >= node.start_byte,
    decreases node,
{
    let ghost start = rep_view(out@);
    if kind_is(node, "string") || kind_is(node, "comment") {
        assert(rep_view(out@) =~= start + ident_reps(*node, source@, map@));
        return;
    }
    if kind_is(node, "identifier") {
        let t = node_text(node, source);
        let tc = chars_of(t.as_str());
        match map.get(&tc) {
            Some(v) => {
                proof {
                    crate::refactor::inline_method::lemma_sorted_push(start, (node.start_byte as int, node.end_byte as int, v@));
                }
                let ghost vv = v@;
                out.push((node.start_byte, node.end_byte, v));
                assert(rep_view(out@) =~= start.push((node.start_byte as int, node.end_byte as int, vv)));
                assert(rep_view(out@) =~= start + ident_reps(*node, source@, map@));
                return;
            },
            None => {},
        }
    }
    let ghost mid = rep_view(out@);
    let mut i: usize = 0;
    assert(rep_view(out@) =~= mid + ident_reps_in_children(*node, source@, map@, 0));
    while i < node.children.len()
        invariant
            i <= node.children@.len(),
            tree_ok(source@, *node),
            well_nested(*node),
            map.wf(),
            rep_view(out@) == mid + ident_reps_in_children(*node, source@, map@, i as int),
            sorted_reps(rep_view(out@)),
            spans_in(source@, rep_view(out@)),
            out@.len() > 0 ==> out@.last().1 <= (if i == 0 {
                node.start_byte
            } else {
                node.children@[i - 1].end_byte
            }),
            out@.len() > mid.len() ==> out@[mid.len() as int].0 >= node.start_byte,
            mid.len() == old(out)@.len(),
            mid == start,
            i > 0 ==> node.children@[i - 1].end_byte <= node.end_byte,
        decreases node.children@.len() - i,
    {
        let c = &node.children[i];
        assert(tree_ok(source@, *c));
        assert(well_nested(*c));
        if i > 0 {
            assert(node.children@[i - 1].end_byte <= c.start_byte);
        }
        let ghost bout = out@;
        collect_identifier_replacements(c, source, map, out);
        proof {
            if bout.len() > mid.len() {
                assert(rep_view(out@)[mid.len() as int] == rep_view(bout)[mid.len() as int]);
            }
        }
        assert(rep_view(out@) =~= mid + ident_reps_in_children(*node, source@, map@, i + 1));
        i += 1;
    }
    assert(rep_view(out@) =~= start + ident_reps(*node, source@, map@));
}

/// The renames as a map.
pub fn map_of_pairs(pairs: &[(String, String)]) -> (m: TextMap)
    ensures
        m.wf(),
        m@ == pairs_map(pair_views(pairs@)),
{
    let mut m = TextMap::new();
    let mut i: usize = 0;
    while i < pairs.len()
        invariant
            i <= pairs@.len(),
            m.wf(),
            m@ == pairs_map(pair_views(pairs@).take(i as int)),
        decreases pairs@.len() - i,
    {
        assert(pair_views(pairs@).take(i + 1).drop_last() =~= pair_views(pairs@).take(i as int));
        m.insert(chars_of(pairs[i].0.as_str()), chars_of(pairs[i].1.as_str()));
        i += 1;
    }
    assert(pair_views(pairs@).take(i as int) =~= pair_views(pairs@));
    m
}

/// Rename identifiers in `text` (parsed as `root`) by the renames, leaving
/// strings and comments alone.
pub fn rename_identifiers_ast(text: &str, root: &SyntaxNode, pairs: &[(String, String)]) -> (r: String)
    requires
        tree_ok(text@, *root),
        well_nested(*root),
    ensures
        r@ == spliced(
            text@,
            ident_reps(*root, text@, pairs_map(pair_views(pairs@))),
            0,
            encode_utf8(text@).len() as int,
        ),
{
    let map = map_of_pairs(pairs);
    let mut out: Vec<(usize, usize, Vec<char>)> = Vec::new();
    collect_identifier_replacements(root, text, &map, &mut out);
    let n = text.as_bytes().len();
    proof {
        vstd::utf8::encode_utf8_valid_utf8(text@);
        vstd::utf8::is_char_boundary_start_end_of_seq(encode_utf8(text@));
        crate::refactor::inline_method::lemma_within(rep_view(out@), root.start_byte as int, root.end_byte as int);
    }
    assert forall|i: int| 0 <= i < out@.len() implies 0 <= (#[trigger] out@[i]).0 && out@[i].1 <= n by {
        assert(rep_view(out@)[i] == (out@[i].0 as int, out@[i].1 as int, out@[i].2@));
    }
    let v = crate::refactor::inline_method::splice_reps(text, &out, 0, n);
    string_of(&v)
}

// ── Edits of the definition and of call sites ──────────────────────────────

/// The file with a function's parameter list (brackets included) replaced by
/// `(params)`; unchanged when the function has no parameter list.
pub open spec fn with_params(src: Seq<char>, def: SyntaxNode, params: Seq<char>) -> Seq<char> {
    match field_child(def, "parameters"@) {
        Some(pn) => span_replaced(src, pn.start_byte as int, pn.end_byte as int, "("@ + params + ")"@),
        None => src,
    }
}

/// Replace a function's parameter list with `(params)`.
pub fn replace_params(source: &str, def: &SyntaxNode, params: &str) -> (r: String)
    requires
        tree_ok(source@, *def),
    ensures
        r@ == with_params(source@, *def, params@),
{
    match child_by_field_name(def, "parameters") {
        Some(pn) => {
            assert(tree_ok(source@, *pn));
            let t = concat_strs(&["(", params, ")"]);
            proof {
                reveal_with_fuel(concat_views, 4);
            }
            replace_span(source, pn.start_byte, pn.end_byte, t.as_str())
        },
        None => String::from_str(source),
    }
}

/// The signature change applied to an overriding function in another file:
/// the file with its parameter list replaced, or the message of the error.
pub open spec fn override_edit(src: Seq<char>, root: SyntaxNode, name: Seq<char>, params: Seq<char>) -> Result<Seq<char>, Seq<char>> {
    match crate::refactor::named_decl(root, src, name) {
        None => Err("override '"@ + name + "' not found"@),
        Some(d) => if d.kind@ != "function_definition"@ && d.kind@ != "constructor_definition"@ {
            Err("'"@ + name + "' is not a function"@)
        } else {
            Ok(with_params(src, d, params))
        },
    }
}

/// Apply the new parameter list to the function `name` in another file.
pub fn apply_signature_to_override(source: &str, root: &SyntaxNode, name: &str, params: &str) -> (r: Result<String, SignatureError>)
    requires
        tree_ok(source@, *root),
    ensures
        match r {
            Ok(t) => override_edit(source@, *root, name@, params@) == Ok::<_, Seq<char>>(t@),
            Err(e) => override_edit(source@, *root, name@, params@) == Err::<Seq<char>, _>(e.message@),
        },
{
    proof {
        reveal_with_fuel(concat_views, 4);
    }
    let d = match crate::refactor::find_top_decl(root, source, name) {
        Some(d) => d,
        None => return Err(SignatureError { message: concat_strs(&["override '", name, "' not found"]) }),
    };
    if !kind_is(d, "function_definition") && !kind_is(d, "constructor_definition") {
        return Err(SignatureError { message: concat_strs(&["'", name, "' is not a function"]) });
    }
    Ok(replace_params(source, d, params))
}

/// The edit of one call site: its argument list (brackets included) replaced
/// by the rewritten arguments, and the parameters that got a `null`
/// placeholder; none when the call has no argument list.
pub open spec fn site_edit(
    call: SyntaxNode,
    src: Seq<char>,
    old_params: Seq<ParamInfo>,
    new_params: Seq<ParamInfo>,
    removes: Seq<String>,
    pairs: Seq<(String, String)>,
    reorder: Option<Seq<char>>,
) -> Option<((int, int, Seq<char>), Seq<Seq<char>>)> {
    match field_child(call, "arguments"@) {
        None => None,
        Some(a) => {
            let m = call_arg_map(crate::refactor::inline_method::call_args(call, src), old_params, removes, pairs);
            Some(
                (
                    (
                        a.start_byte as int,
                        a.end_byte as int,
                        "("@ + join(rewritten_args(m, new_params, removes, reorder), seq![',', ' ']) + ")"@,
                    ),
                    placeholder_names(m, new_params),
                ),
            )
        },
    }
}

/// The edit of one call site, and the placeholder parameters.
pub fn call_site_edit(
    call: &SyntaxNode,
    cs: &str,
    old_params: &[ParamInfo],
    new_params: &[ParamInfo],
    removes: &[String],
    adds: &[String],
    pairs: &[(String, String)],
    reorder: Option<&str>,
) -> (r: Option<((usize, usize, String), Vec<String>)>)
    requires
        tree_ok(cs@, *call),
    ensures
        match r {
            Some((e, ph)) => site_edit(*call, cs@, old_params@, new_params@, removes@, pairs@, opt_str(reorder)) == Some(
                ((e.0 as int, e.1 as int, e.2@), texts(ph@)),
            ),
            None => site_edit(*call, cs@, old_params@, new_params@, removes@, pairs@, opt_str(reorder)) is None,
        },
{
    let a = match child_by_field_name(call, "arguments") {
        Some(a) => a,
        None => return None,
    };
    let old_args = crate::refactor::inline_method::extract_call_arguments(call, cs);
    let (new_args, ph) = rewrite_call_arguments(&old_args, old_params, new_params, removes, adds, pairs, reorder);
    let mut parts: Vec<Vec<char>> = Vec::new();
    let mut i: usize = 0;
    while i < new_args.len()
        invariant
            i <= new_args@.len(),
            parts@.map_values(|v: Vec<char>| v@) == texts(new_args@).take(i as int),
        decreases new_args@.len() - i,
    {
        let ghost prev = parts@.map_values(|v: Vec<char>| v@);
        parts.push(chars_of(new_args[i].as_str()));
        assert(parts@.map_values(|v: Vec<char>| v@) =~= prev.push(new_args@[i as int]@));
        assert(texts(new_args@).take(i + 1) =~= texts(new_args@).take(i as int).push(new_args@[i as int]@));
        i += 1;
    }
    assert(texts(new_args@).take(i as int) =~= texts(new_args@));
    let sep: [char; 2] = [',', ' '];
    assert(sep@ =~= seq![',', ' ']);
    let joined = string_of(&crate::text::join_lines(&parts, &sep));
    let text = concat_strs(&["(", joined.as_str(), ")"]);
    proof {
        reveal_with_fuel(concat_views, 4);
    }
    Some(((a.start_byte, a.end_byte, text), ph))
}

/// The warning for each `null` placeholder.
pub open spec fn placeholder_warnings(ph: Seq<Seq<char>>) -> Seq<Seq<char>> {
    ph.map_values(|p: Seq<char>| "inserted `null` placeholder for parameter '"@ + p
        + "' (no default value)"@)
}

/// The warnings about `null` placeholders.
pub fn placeholder_warning_list(ph: &[String]) -> (r: Vec<String>)
    ensures
        texts(r@) == placeholder_warnings(texts(ph@)),
{
    let mut out: Vec<String> = Vec::new();
    let mut i: usize = 0;
    while i < ph.len()
        invariant
            i <= ph@.len(),
            texts(out@) == placeholder_warnings(texts(ph@)).take(i as int),
        decreases ph@.len() - i,
    {
        let w = concat_strs(&["inserted `null` placeholder for parameter '", ph[i].as_str(), "' (no default value)"]);
        proof {
            reveal_with_fuel(concat_views, 4);
        }
        let ghost prev = texts(out@);
        out.push(w);
        assert(texts(out@) =~= prev.push(w@));
        assert(placeholder_warnings(texts(ph@)).take(i + 1) =~= placeholder_warnings(texts(ph@)).take(i as int).push(
            placeholder_warnings(texts(ph@))[i as int],
        ));
        i += 1;
    }
    assert(placeholder_warnings(texts(ph@)).take(i as int) =~= placeholder_warnings(texts(ph@)));
    out
}

// ── Warnings ───────────────────────────────────────────────────────────────

/// `N non-call reference(s) to 'name' may need manual updating`, when some
/// references were not calls that could be rewritten.
pub open spec fn non_call_warning(n: nat, name: Seq<char>) -> Seq<Seq<char>> {
    if n == 0 {
        Seq::empty()
    } else {
        seq![decimal(n) + " non-call reference"@ + (if n == 1 {
            ""@
        } else {
            "s"@
        }) + " to '"@ + name + "' may need manual updating"@]
    }
}

/// The warning about references left as they were.
pub fn non_call_references(sites: u32, updated: u32, name: &str) -> (r: Vec<String>)
    requires
        updated <= sites,
    ensures
        texts(r@) == non_call_warning((sites - updated) as nat, name@),
{
    let n = sites - updated;
    let mut r: Vec<String> = Vec::new();
    if n > 0 {
        let d = decimal_string(n as usize);
        let s = if n == 1 { "" } else { "s" };
        r.push(concat_strs(&[d.as_str(), " non-call reference", s, " to '", name, "' may need manual updating"]));
        proof {
            reveal_with_fuel(concat_views, 7);
        }
    }
    assert(texts(r@) =~= non_call_warning((sites - updated) as nat, name@));
    r
}

/// A scene line that connects a signal to the handler.
pub open spec fn connection_line(l: Seq<char>, name: Seq<char>) -> bool {
    starts_with(l, "[connection"@) && (contains(l, "method=\""@ + name + "\""@) || contains(
        l,
        "method = \""@ + name + "\""@,
    ))
}

/// The number of the first `k` lines that connect to the handler.
pub open spec fn connection_count(ls: Seq<Seq<char>>, name: Seq<char>, k: int) -> nat
    decreases k,
{
    if k <= 0 || k > ls.len() {
        0
    } else {
        connection_count(ls, name, k - 1) + if connection_line(ls[k - 1], name) {
            1nat
        } else {
            0nat
        }
    }
}

/// The warning about a scene whose signal connections name the handler.
pub open spec fn tscn_warning(content: Seq<char>, name: Seq<char>, rel: Seq<char>) -> Option<Seq<char>> {
    let ls = lines(content);
    let n = connection_count(ls, name, ls.len() as int);
    if !contains(content, "method=\""@ + name + "\""@) && !contains(content, "method = \""@ + name + "\""@) {
        None
    } else if n == 0 {
        None
    } else {
        Some(
            decimal(n) + " signal connection"@ + (if n == 1 {
                ""@
            } else {
                "s"@
            }) + " in "@ + rel + " reference"@ + (if n == 1 {
                "s"@
            } else {
                ""@
            }) + " handler '"@ + name + "' \u{2014} verify binds and parameters match the new signature"@,
        )
    }
}

/// Check a scene for signal connections to the handler whose signature changes.
pub fn check_tscn_connections(content: &str, func_name: &str, rel: &str) -> (r: Option<String>)
    ensures
        opt_view(r) == tscn_warning(content@, func_name@, rel@),
{
    proof {
        reveal_with_fuel(concat_views, 9);
    }
    let pat = concat_strs(&["method=\"", func_name, "\""]);
    let spaced = concat_strs(&["method = \"", func_name, "\""]);
    let cc = chars_of(content);
    let pc = chars_of(pat.as_str());
    let sc = chars_of(spaced.as_str());
    if !crate::text::has_sub(&cc, &pc) && !crate::text::has_sub(&cc, &sc) {
        return None;
    }
    let ls = crate::text::lines_of(&cc);
    let head = chars_of("[connection");
    let mut n: usize = 0;
    let mut i: usize = 0;
    while i < ls.len()
        invariant
            i <= ls@.len(),
            ls@.len() == lines(content@).len(),
            forall|j: int| 0 <= j < ls@.len() ==> (#[trigger] ls@[j])@ == lines(content@)[j],
            head@ == "[connection"@,
            pc@ == "method=\""@ + func_name@ + "\""@,
            sc@ == "method = \""@ + func_name@ + "\""@,
            n == connection_count(lines(content@), func_name@, i as int),
            n <= i,
        decreases ls@.len() - i,
    {
        let l = &ls[i];
        if crate::text::has_prefix(l, &head) && (crate::text::has_sub(l, &pc) || crate::text::has_sub(l, &sc)) {
            n += 1;
        }
        i += 1;
    }
    if n == 0 {
        return None;
    }
    let d = decimal_string(n);
    let s1 = if n == 1 { "" } else { "s" };
    let s2 = if n == 1 { "s" } else { "" };
    let w = concat_strs(
        &[
            d.as_str(),
            " signal connection",
            s1,
            " in ",
            rel,
            " reference",
            s2,
            " handler '",
            func_name,
            "' \u{2014} verify binds and parameters match the new signature",
        ],
    );
    proof {
        reveal_with_fuel(concat_views, 11);
    }
    Some(w)
}

// ── The function to change ─────────────────────────────────────────────────

/// The function a request names, at top level or in the named inner class;
/// or the message of why it cannot be changed.
pub open spec fn signature_target(root: SyntaxNode, src: Seq<char>, name: Seq<char>, class: Option<Seq<char>>) -> Result<SyntaxNode, Seq<char>> {
    let found: Result<SyntaxNode, Seq<char>> = match class {
        Some(c) => match crate::refactor::class_index(root.children@, src, c) {
            None => Err("no inner class named '"@ + c + "' found"@),
            Some(ci) => match field_child(root.children@[ci], "body"@) {
                Some(b) => match crate::refactor::decl_by_name_index(b.children@, src, name) {
                    Some(i) => Ok(b.children@[i]),
                    None => Err("no function '"@ + name + "' in class '"@ + c + "'"@),
                },
                None => Err("no function '"@ + name + "' in class '"@ + c + "'"@),
            },
        },
        None => match crate::refactor::named_decl(root, src, name) {
            Some(d) => Ok(d),
            None => Err("no declaration named '"@ + name + "' found"@),
        },
    };
    match found {
        Err(e) => Err(e),
        Ok(d) => if d.kind@ != "function_definition"@ && d.kind@ != "constructor_definition"@ {
            Err("'"@ + name + "' is not a function"@)
        } else {
            Ok(d)
        },
    }
}

/// Find the function whose signature changes.
#[verifier::rlimit(40)]
pub fn find_signature_target<'a>(root: &'a SyntaxNode, source: &str, name: &str, class: Option<&str>) -> (r: Result<&'a SyntaxNode, SignatureError>)
    requires
        tree_ok(source@, *root),
    ensures
        match r {
            Ok(d) => signature_target(*root, source@, name@, opt_str(class)) == Ok::<_, Seq<char>>(*d) && tree_ok(source@, *d),
            Err(e) => signature_target(*root, source@, name@, opt_str(class)) == Err::<SyntaxNode, _>(e.message@),
        },
{
    proof {
        reveal_with_fuel(concat_views, 6);
    }
    let d: &SyntaxNode = match class {
        Some(c) => {
            let cn = match crate::refactor::find_class_definition(root, source, c) {
                Some(x) => x,
                None => return Err(SignatureError { message: concat_strs(&["no inner class named '", c, "' found"]) }),
            };
            let ghost ci = choose|i: int| 0 <= i < root.children@.len() && crate::refactor::class_index(root.children@, source@, c@) == Some(i) && root.children@[i] == *cn;
            assert(tree_ok(source@, root.children@[ci]));
            let b = match crate::refactor::class_body(cn) {
                Some(b) => b,
                None => return Err(SignatureError { message: concat_strs(&["no function '", name, "' in class '", c, "'"]) }),
            };
            assert(tree_ok(source@, *b));
            match crate::refactor::find_top_decl(b, source, name) {
                Some(x) => x,
                None => return Err(SignatureError { message: concat_strs(&["no function '", name, "' in class '", c, "'"]) }),
            }
        },
        None => match crate::refactor::find_top_decl(root, source, name) {
            Some(x) => x,
            None => return Err(SignatureError { message: concat_strs(&["no declaration named '", name, "' found"]) }),
        },
    };
    if !kind_is(d, "function_definition") && !kind_is(d, "constructor_definition") {
        return Err(SignatureError { message: concat_strs(&["'", name, "' is not a function"]) });
    }
    Ok(d)
}

/// The parts of a signature change that the function's own file decides.
pub struct SignaturePlan {
    /// The function as found.
    pub old_signature: String,
    pub new_signature: String,
    /// The new parameter list as written.
    pub params: String,
    pub old_params: Vec<ParamInfo>,
    pub new_params: Vec<ParamInfo>,
    /// The renames done, in order.
    pub renames: Vec<(String, String)>,
    /// The rows the function spans (as the reference list counts them).
    pub def_rows: (u32, u32),
    /// The file with the function's parameter list replaced.
    pub new_source: String,
}

/// What planning a signature change gives: the old and new parameters and
/// texts and the new source, or the message of the lookup or of the change.
pub open spec fn signature_outcome(
    src: Seq<char>,
    root: SyntaxNode,
    name: Seq<char>,
    class: Option<Seq<char>>,
    adds: Seq<String>,
    removes: Seq<String>,
    renames: Seq<String>,
    reorder: Option<Seq<char>>,
    r: Result<SignaturePlan, SignatureError>,
) -> bool {
    match r {
        Ok(p) => signature_target(root, src, name, class) matches Ok(d) && {
            let old = crate::refactor::inline_method::func_params(d, src);
            &&& pviews(p.old_params@) == old
            &&& param_changes(old, texts(removes), texts(renames), texts(adds), reorder)
                == Ok::<_, Seq<char>>((pviews(p.new_params@), pair_views(p.renames@)))
            &&& p.old_signature@ == signature_text(name, old)
            &&& p.new_signature@ == signature_text(name, pviews(p.new_params@))
            &&& p.params@ == params_text(pviews(p.new_params@))
            &&& p.def_rows == (d.start_row as u32, d.end_row as u32)
            &&& p.new_source@ == with_params(src, d, p.params@)
        },
        Err(e) => match signature_target(root, src, name, class) {
            Err(m) => e.message@ == m,
            Ok(d) => param_changes(
                crate::refactor::inline_method::func_params(d, src),
                texts(removes),
                texts(renames),
                texts(adds),
                reorder,
            ) == Err::<(Seq<ParamView>, Seq<(Seq<char>, Seq<char>)>), _>(e.message@),
        },
    }
}

/// Change a function's signature: find it, apply the parameter changes, and
/// rewrite its parameter list.
#[verifier::rlimit(40)]
pub fn plan_change_signature(
    source: &str,
    root: &SyntaxNode,
    name: &str,
    class: Option<&str>,
    adds: &[String],
    removes: &[String],
    renames: &[String],
    reorder: Option<&str>,
) -> (r: Result<SignaturePlan, SignatureError>)
    requires
        tree_ok(source@, *root),
    ensures
        signature_outcome(source@, *root, name@, opt_str(class), adds@, removes@, renames@, opt_str(reorder), r),
{
    let d = find_signature_target(root, source, name, class)?;
    let existing = crate::refactor::inline_method::extract_function_params(d, source);
    let old_params = crate::refactor::inline_method::extract_function_params(d, source);
    let old_signature = signature_string(name, &old_params);
    let (new_params, pairs) = apply_param_changes(existing, removes, renames, adds, reorder)?;
    let params = params_string(&new_params);
    let new_signature = signature_string(name, &new_params);
    let new_source = replace_params(source, d, params.as_str());
    let def_rows: (u32, u32) = (#[verifier::truncate] (d.start_row as u32), #[verifier::truncate] (d.end_row as u32));
    Ok(SignaturePlan { old_signature, new_signature, params, old_params, new_params, renames: pairs, def_rows, new_source })
}


/// Plan a signature change in a source text, parsing it first: `None` when
/// the parser gives no tree that fits the text.
pub fn plan_change_signature_in(
    source: &str,
    name: &str,
    class: Option<&str>,
    adds: &[String],
    removes: &[String],
    renames: &[String],
    reorder: Option<&str>,
) -> (r: Option<Result<SignaturePlan, SignatureError>>)
    ensures
        r is None <==> fitting_tree(source@) is None,
        r matches Some(x) ==> signature_outcome(
            source@,
            fitting_tree(source@)->0,
            name@,
            opt_str(class),
            adds@,
            removes@,
            renames@,
            opt_str(reorder),
            x,
        ),
{
    match parse_fitting(source) {
        Some(root) => Some(plan_change_signature(source, &root, name, class, adds, removes, renames, reorder)),
        None => None,
    }
}

/// The text of the body of the top-level function `name` with the renamed
/// parameters renamed: the body is parsed on its own and its identifiers
/// renamed as `rename_identifiers_ast` does. The text is unchanged without
/// renames, without such a function or without a body; `None` when the parser
/// gives no tree that fits the text or the body.
pub open spec fn renamed_in_body(src: Seq<char>, name: Seq<char>, pairs: Seq<(String, String)>) -> Option<Seq<char>> {
    if pairs.len() == 0 {
        Some(src)
    } else {
        match fitting_tree(src) {
            None => None,
            Some(root) => renamed_with_tree(src, root, name, pairs),
        }
    }
}

/// `renamed_in_body` once the text's tree is `root`.
pub open spec fn renamed_with_tree(src: Seq<char>, root: SyntaxNode, name: Seq<char>, pairs: Seq<(String, String)>) -> Option<Seq<char>> {
    match crate::refactor::named_decl(root, src, name) {
        None => Some(src),
        Some(f) => match field_child(f, "body"@) {
            None => Some(src),
            Some(b) => {
                let t = crate::syntax::text_between(src, b.start_byte as int, b.end_byte as int);
                match fitting_tree(t) {
                    None => None,
                    Some(br) => Some(
                        span_replaced(
                            src,
                            b.start_byte as int,
                            b.end_byte as int,
                            spliced(t, ident_reps(br, t, pairs_map(pair_views(pairs))), 0, encode_utf8(t).len() as int),
                        ),
                    ),
                }
            },
        },
    }
}

/// Rename the renamed parameters inside the body of the top-level function
/// `name`: see `renamed_in_body`.
pub fn rename_in_body(source: &str, name: &str, pairs: &[(String, String)]) -> (r: Option<String>)
    ensures
        opt_view(r) == renamed_in_body(source@, name@, pairs@),
{
    if pairs.len() == 0 {
        return Some(String::from_str(source));
    }
    match parse_fitting(source) {
        Some(root) => rename_with_tree(source, &root, name, pairs),
        None => None,
    }
}

fn rename_with_tree(source: &str, root: &SyntaxNode, name: &str, pairs: &[(String, String)]) -> (r: Option<String>)
    requires
        tree_ok(source@, *root),
    ensures
        opt_view(r) == renamed_with_tree(source@, *root, name@, pairs@),
{
    let f = match crate::refactor::find_top_decl(root, source, name) {
        Some(f) => f,
        None => {
            return Some(String::from_str(source));
        },
    };
    let b = match child_by_field_name(f, "body") {
        Some(b) => b,
        None => {
            return Some(String::from_str(source));
        },
    };
    proof {
        let i = choose|i: int| 0 <= i < f.children@.len() && f.children@[i] == *b;
        assert(tree_ok(source@, f.children@[i]));
    }
    let text = crate::syntax::slice_str(source, b.start_byte, b.end_byte);
    let body_root = match parse_fitting(text.as_str()) {
        Some(t) => t,
        None => {
            return None;
        },
    };
    let renamed = rename_identifiers_ast(text.as_str(), &body_root, pairs);
    Some(replace_span(source, b.start_byte, b.end_byte, renamed.as_str()))
}

/// Give an override in another text the new parameter list, parsing the
/// text first: `None` when the parser gives no tree that fits it.
pub fn apply_signature_to_override_in(source: &str, name: &str, params: &str) -> (r: Option<Result<String, SignatureError>>)
    ensures
        r is None <==> fitting_tree(source@) is None,
        r matches Some(x) ==> match x {
            Ok(t) => override_edit(source@, fitting_tree(source@)->0, name@, params@) == Ok::<_, Seq<char>>(t@),
            Err(e) => override_edit(source@, fitting_tree(source@)->0, name@, params@) == Err::<Seq<char>, _>(e.message@),
        },
{
    match parse_fitting(source) {
        Some(root) => Some(apply_signature_to_override(source, &root, name, params)),
        None => None,
    }
}

// ── Call sites of one file ─────────────────────────────────────────────────

/// The edit of the call at a 0-based position of a text, and its
/// placeholders: when the parser gives a chain of nodes there that fits the
/// text, the chain holds a call, and its arguments can be rewritten.
pub open spec fn site_edit_at(
    cs: Seq<char>,
    pos: (usize, usize),
    old_params: Seq<ParamInfo>,
    new_params: Seq<ParamInfo>,
    removes: Seq<String>,
    pairs: Seq<(String, String)>,
    reorder: Option<Seq<char>>,
) -> Option<((int, int, Seq<char>), Seq<Seq<char>>)> {
    match chain_at(cs, pos.0, pos.1, pos.0, pos.1) {
        None => None,
        Some(c) => match first_where(c, |n: SyntaxNode| crate::refactor::inline_method::call_like(n)) {
            None => None,
            Some(i) => site_edit(c[i], cs, old_params, new_params, removes, pairs, reorder),
        },
    }
}

/// The edits, in the order of the positions, and the placeholder warnings,
/// for the first `k` positions.
pub open spec fn site_edits_upto(
    cs: Seq<char>,
    ps: Seq<(usize, usize)>,
    old_params: Seq<ParamInfo>,
    new_params: Seq<ParamInfo>,
    removes: Seq<String>,
    pairs: Seq<(String, String)>,
    reorder: Option<Seq<char>>,
    k: int,
) -> (Seq<(int, int, Seq<char>)>, Seq<Seq<char>>)
    decreases k,
{
    if k <= 0 || k > ps.len() {
        (Seq::empty(), Seq::empty())
    } else {
        let prev = site_edits_upto(cs, ps, old_params, new_params, removes, pairs, reorder, k - 1);
        match site_edit_at(cs, ps[k - 1], old_params, new_params, removes, pairs, reorder) {
            None => prev,
            Some((e, ph)) => (prev.0.push(e), prev.1 + placeholder_warnings(ph)),
        }
    }
}

fn edit_at(
    cs: &str,
    pos: (usize, usize),
    old_params: &[ParamInfo],
    new_params: &[ParamInfo],
    removes: &[String],
    adds: &[String],
    pairs: &[(String, String)],
    reorder: Option<&str>,
) -> (r: Option<((usize, usize, String), Vec<String>)>)
    ensures
        match site_edit_at(cs@, pos, old_params@, new_params@, removes@, pairs@, opt_str(reorder)) {
            None => r is None,
            Some((e, ph)) => r matches Some((x, w)) && (x.0 as int, x.1 as int, x.2@) == e && texts(w@) == placeholder_warnings(ph),
        },
{
    let (row, col) = pos;
    let chain = match nodes_at(cs, row, col, row, col) {
        Some(c) => c,
        None => {
            return None;
        },
    };
    let ci = match crate::refactor::inline_method::find_call_at(chain.as_slice()) {
        Some(ci) => ci,
        None => {
            return None;
        },
    };
    assert(crate::parse::fits(cs@, chain@[ci as int]));
    match call_site_edit(&chain[ci], cs, old_params, new_params, removes, adds, pairs, reorder) {
        Some((edit, placeholders)) => Some((edit, placeholder_warning_list(placeholders.as_slice()))),
        None => None,
    }
}

/// The edits of the call sites at the given 0-based positions of one file,
/// last first, and the warnings about placeholder arguments: each position
/// is parsed for the innermost call there (see `site_edit_at`); positions
/// without one are passed over.
#[verifier::spinoff_prover]
#[verifier::rlimit(40)]
pub fn call_site_edits_in(
    cs: &str,
    positions: &[(usize, usize)],
    old_params: &[ParamInfo],
    new_params: &[ParamInfo],
    removes: &[String],
    adds: &[String],
    pairs: &[(String, String)],
    reorder: Option<&str>,
) -> (r: (Vec<(usize, usize, String)>, Vec<String>))
    ensures
        edit_views(r.0@) == edits_desc(
            site_edits_upto(cs@, positions@, old_params@, new_params@, removes@, pairs@, opt_str(reorder), positions@.len() as int).0,
        ),
        texts(r.1@) == site_edits_upto(
            cs@,
            positions@,
            old_params@,
            new_params@,
            removes@,
            pairs@,
            opt_str(reorder),
            positions@.len() as int,
        ).1,
{
    let mut edits: Vec<(usize, usize, String)> = Vec::new();
    let mut warnings: Vec<String> = Vec::new();
    let mut k: usize = 0;
    while k < positions.len()
        invariant
            k <= positions@.len(),
            edit_views(edits@) == site_edits_upto(cs@, positions@, old_params@, new_params@, removes@, pairs@, opt_str(reorder), k as int).0,
            texts(warnings@) == site_edits_upto(cs@, positions@, old_params@, new_params@, removes@, pairs@, opt_str(reorder), k as int).1,
        decreases positions@.len() - k,
    {
        let found = edit_at(cs, positions[k], old_params, new_params, removes, adds, pairs, reorder);
        if let Some((edit, list)) = found {
            let ghost ev = edit_views(edits@);
            let ghost wv = texts(warnings@);
            edits.push(edit);
            assert(edit_views(edits@) =~= ev.push((edit.0 as int, edit.1 as int, edit.2@)));
            let mut j: usize = 0;
            while j < list.len()
                invariant
                    j <= list@.len(),
                    texts(warnings@) == wv + texts(list@).take(j as int),
                decreases list@.len() - j,
            {
                let ghost before = texts(warnings@);
                warnings.push(list[j].clone());
                assert(texts(warnings@) =~= before.push(list@[j as int]@));
                assert(texts(list@).take(j + 1) =~= texts(list@).take(j as int).push(list@[j as int]@));
                j += 1;
            }
            assert(texts(list@).take(j as int) =~= texts(list@));
        }
        k += 1;
    }
    (crate::edits::sort_edits_desc(edits), warnings)
}

// ── Overrides ──────────────────────────────────────────────────────────────

/// A script of the project index: its `class_name`, what it `extends`, and
/// the names of its functions.
pub struct IndexedClass {
    pub class_name: Option<String>,
    pub extends: Option<String>,
    pub functions: Vec<String>,
}

/// A script of the index as plain values.
pub open spec fn class_view(c: IndexedClass) -> (Option<Seq<char>>, Option<Seq<char>>, Seq<Seq<char>>) {
    (opt_view(c.class_name), opt_view(c.extends), string_texts(c.functions@))
}

pub open spec fn class_views(cs: Seq<IndexedClass>) -> Seq<(Option<Seq<char>>, Option<Seq<char>>, Seq<Seq<char>>)> {
    cs.map_values(|c: IndexedClass| class_view(c))
}

/// The first script from index `k` on that declares `class_name c`.
pub open spec fn class_file_from(fs: Seq<(Option<Seq<char>>, Option<Seq<char>>, Seq<Seq<char>>)>, c: Seq<char>, k: int) -> Option<int>
    decreases fs.len() - k,
{
    if k < 0 || k >= fs.len() {
        None
    } else if fs[k].0 == Some(c) {
        Some(k)
    } else {
        class_file_from(fs, c, k + 1)
    }
}

/// The first script that declares `class_name c`.
pub open spec fn class_file(fs: Seq<(Option<Seq<char>>, Option<Seq<char>>, Seq<Seq<char>>)>, c: Seq<char>) -> Option<int> {
    class_file_from(fs, c, 0)
}

/// Class `c` is `tc`, or extends it within `fuel` steps of `extends`, each
/// step taken in the first script that declares the class.
pub open spec fn reaches(fs: Seq<(Option<Seq<char>>, Option<Seq<char>>, Seq<Seq<char>>)>, c: Seq<char>, tc: Seq<char>, fuel: nat) -> bool
    decreases fuel,
{
    c == tc || (fuel > 0 && match class_file(fs, c) {
        Some(j) => match fs[j].1 {
            Some(e) => reaches(fs, e, tc, (fuel - 1) as nat),
            None => false,
        },
        None => false,
    })
}

/// Script `i` overrides `name` of the target script: the target declares a
/// `class_name`, script `i` is another script whose `extends` chain reaches
/// that class, and it defines a function `name`.
pub open spec fn is_override(fs: Seq<(Option<Seq<char>>, Option<Seq<char>>, Seq<Seq<char>>)>, target: int, i: int, name: Seq<char>) -> bool {
    &&& 0 <= target < fs.len()
    &&& i != target
    &&& fs[target].0 matches Some(tc) && (fs[i].1 matches Some(e) && reaches(fs, e, tc, fs.len()))
    &&& fs[i].2.contains(name)
}

/// The overriding scripts among the first `k`, in index order.
pub open spec fn overrides_upto(fs: Seq<(Option<Seq<char>>, Option<Seq<char>>, Seq<Seq<char>>)>, target: int, name: Seq<char>, k: int) -> Seq<int>
    decreases k,
{
    if k <= 0 {
        seq![]
    } else if is_override(fs, target, k - 1, name) {
        overrides_upto(fs, target, name, k - 1).push(k - 1)
    } else {
        overrides_upto(fs, target, name, k - 1)
    }
}

fn find_class(files: &[IndexedClass], c: &str) -> (r: Option<usize>)
    ensures
        match r {
            Some(j) => class_file(class_views(files@), c@) == Some(j as int) && j < files@.len(),
            None => class_file(class_views(files@), c@) is None,
        },
{
    let ghost fs = class_views(files@);
    let mut j: usize = 0;
    while j < files.len()
        invariant
            j <= files@.len(),
            fs == class_views(files@),
            class_file(fs, c@) == class_file_from(fs, c@, j as int),
        decreases files@.len() - j,
    {
        let hit = match &files[j].class_name {
            Some(n) => str_eq(n.as_str(), c),
            None => false,
        };
        assert(hit == (fs[j as int].0 == Some(c@)));
        if hit {
            return Some(j);
        }
        j += 1;
    }
    None
}

fn has_function(fns: &Vec<String>, name: &str) -> (r: bool)
    ensures
        r == string_texts(fns@).contains(name@),
{
    let mut k: usize = 0;
    while k < fns.len()
        invariant
            k <= fns@.len(),
            forall|q: int| 0 <= q < k ==> fns@[q]@ != name@,
        decreases fns@.len() - k,
    {
        if str_eq(fns[k].as_str(), name) {
            assert(string_texts(fns@)[k as int] == name@);
            return true;
        }
        k += 1;
    }
    assert(!string_texts(fns@).contains(name@)) by {
        if string_texts(fns@).contains(name@) {
            let q = choose|q: int| 0 <= q < string_texts(fns@).len() && string_texts(fns@)[q] == name@;
            assert(fns@[q]@ == name@);
        }
    }
    false
}

fn extends_reaches(files: &[IndexedClass], start: &str, tc: &str) -> (r: bool)
    ensures
        r == reaches(class_views(files@), start@, tc@, files@.len() as nat),
{
    let ghost fs = class_views(files@);
    let n = files.len();
    let mut cur = String::from_str(start);
    let mut k: usize = 0;
    loop
        invariant
            k <= n,
            n == files@.len(),
            fs == class_views(files@),
            reaches(fs, start@, tc@, n as nat) == reaches(fs, cur@, tc@, (n - k) as nat),
        decreases n - k,
    {
        if str_eq(cur.as_str(), tc) {
            return true;
        }
        if k == n {
            return false;
        }
        let next = match find_class(files, cur.as_str()) {
            Some(j) => match &files[j].extends {
                Some(e) => {
                    assert(fs[j as int].1 == Some(e@));
                    String::from_str(e.as_str())
                },
                None => {
                    assert(fs[j as int].1 is None);
                    return false;
                },
            },
            None => {
                return false;
            },
        };
        cur = next;
        k += 1;
    }
}

/// The scripts whose functions override `name` of script `target`: none for
/// a function of an inner class (`class`), none when the target declares no
/// `class_name`; else, in index order, every other script that extends the
/// target's class, directly or through other classes, and defines `name`.
pub fn override_files(files: &[IndexedClass], target: usize, name: &str, class: Option<&str>) -> (r: Vec<usize>)
    ensures
        r@.map_values(|i: usize| i as int) == (if class is Some {
            Seq::<int>::empty()
        } else {
            overrides_upto(class_views(files@), target as int, name@, files@.len() as int)
        }),
{
    let ghost fs = class_views(files@);
    let mut out: Vec<usize> = Vec::new();
    if class.is_some() {
        assert(out@.map_values(|i: usize| i as int) =~= Seq::<int>::empty());
        return out;
    }
    let mut i: usize = 0;
    while i < files.len()
        invariant
            i <= files@.len(),
            fs == class_views(files@),
            out@.map_values(|q: usize| q as int) == overrides_upto(fs, target as int, name@, i as int),
        decreases files@.len() - i,
    {
        let mut hit = false;
        if i != target && target < files.len() {
            if let Some(tc) = &files[target].class_name {
                assert(fs[target as int].0 == Some(tc@));
                if let Some(e) = &files[i].extends {
                    assert(fs[i as int].1 == Some(e@));
                    if extends_reaches(files, e.as_str(), tc.as_str()) && has_function(&files[i].functions, name) {
                        hit = true;
                    }
                } else {
                    assert(fs[i as int].1 is None);
                }
            } else {
                assert(fs[target as int].0 is None);
            }
        }
        assert(hit == is_override(fs, target as int, i as int, name@));
        let ghost before = out@;
        if hit {
            out.push(i);
            assert(out@.map_values(|q: usize| q as int) =~= before.map_values(|q: usize| q as int).push(i as int));
        }
        i += 1;
    }
    out
}

} // verus!
