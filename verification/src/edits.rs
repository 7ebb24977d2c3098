//! Byte-range edits of a text, applied one after another.
use vstd::prelude::*;
use vstd::string::StringSliceAdditionalSpecFns;
use vstd::utf8::{
    encode_utf8, encode_utf8_valid_utf8, is_char_boundary, is_char_boundary_iff_not_is_continuation_byte,
    is_char_boundary_start_end_of_seq,
};

use crate::syntax::{replace_span, span_ok, span_replaced};

verus! {

/// An edit as plain values: the byte range replaced and its new text.
pub open spec fn edit_views(es: Seq<(usize, usize, String)>) -> Seq<(int, int, Seq<char>)> {
    es.map_values(|e: (usize, usize, String)| (e.0 as int, e.1 as int, e.2@))
}

/// The text after applying the edits in order, each to the text the previous
/// ones left.
pub open spec fn applied(s: Seq<char>, es: Seq<(int, int, Seq<char>)>) -> Seq<char>
    decreases es.len(),
{
    if es.len() == 0 {
        s
    } else {
        applied(span_replaced(s, es[0].0, es[0].1, es[0].2), es.drop_first())
    }
}

/// Each edit, in turn, covers a range of the text the previous ones left, on
/// character boundaries (where one does not, replacing it panics).
pub open spec fn edits_valid(s: Seq<char>, es: Seq<(int, int, Seq<char>)>) -> bool
    decreases es.len(),
{
    es.len() == 0 || (span_ok(s, es[0].0, es[0].1) && edits_valid(
        span_replaced(s, es[0].0, es[0].1, es[0].2),
        es.drop_first(),
    ))
}

/// Whether byte `i` of `s` starts a character (or ends the text).
pub fn is_boundary(s: &str, i: usize) -> (r: bool)
    ensures
        r == (i <= encode_utf8(s@).len() && is_char_boundary(encode_utf8(s@), i as int)),
{
    let b = s.as_bytes();
    proof {
        encode_utf8_valid_utf8(s@);
        is_char_boundary_start_end_of_seq(b@);
    }
    if i > b.len() {
        return false;
    }
    if i == b.len() {
        return true;
    }
    proof {
        is_char_boundary_iff_not_is_continuation_byte(b@, i as int);
    }
    !(0x80u8 <= b[i] && b[i] <= 0xbfu8)
}

/// Whether the byte range `a..b` of `s` lies on character boundaries.
pub fn span_is_ok(s: &str, a: usize, b: usize) -> (r: bool)
    ensures
        r == span_ok(s@, a as int, b as int),
{
    a <= b && is_boundary(s, a) && is_boundary(s, b)
}

fn copy_str(s: &String) -> (r: String)
    ensures
        r@ == s@,
{
    String::from_str(s.as_str())
}

/// Whether the edits can be applied in order without panicking.
pub fn edits_applicable(s: &str, es: &[(usize, usize, String)]) -> (r: bool)
    ensures
        r == edits_valid(s@, edit_views(es@)),
{
    let ghost ev = edit_views(es@);
    let mut cur = String::from_str(s);
    let mut i: usize = 0;
    assert(ev.skip(0) =~= ev);
    while i < es.len()
        invariant
            i <= es@.len(),
            ev == edit_views(es@),
            edits_valid(s@, ev) == edits_valid(cur@, ev.skip(i as int)),
        decreases es@.len() - i,
    {
        let e = &es[i];
        assert(ev.skip(i as int)[0] == (e.0 as int, e.1 as int, e.2@));
        assert(ev.skip(i as int).drop_first() =~= ev.skip(i + 1));
        if !span_is_ok(cur.as_str(), e.0, e.1) {
            return false;
        }
        cur = replace_span(cur.as_str(), e.0, e.1, e.2.as_str());
        i += 1;
    }
    assert(ev.skip(i as int) =~= Seq::<(int, int, Seq<char>)>::empty());
    true
}

/// Apply the edits in order, each to the text the previous ones left.
pub fn apply_edits(s: &str, es: &[(usize, usize, String)]) -> (r: String)
    requires
        edits_valid(s@, edit_views(es@)),
    ensures
        r@ == applied(s@, edit_views(es@)),
{
    let ghost ev = edit_views(es@);
    let mut cur = String::from_str(s);
    let mut i: usize = 0;
    assert(ev.skip(0) =~= ev);
    while i < es.len()
        invariant
            i <= es@.len(),
            ev == edit_views(es@),
            edits_valid(cur@, ev.skip(i as int)),
            applied(s@, ev) == applied(cur@, ev.skip(i as int)),
        decreases es@.len() - i,
    {
        let e = &es[i];
        assert(ev.skip(i as int)[0] == (e.0 as int, e.1 as int, e.2@));
        assert(ev.skip(i as int).drop_first() =~= ev.skip(i + 1));
        cur = replace_span(cur.as_str(), e.0, e.1, e.2.as_str());
        i += 1;
    }
    assert(ev.skip(i as int) =~= Seq::<(int, int, Seq<char>)>::empty());
    cur
}

/// `x` placed into `t` after every edit that starts at or after it.
pub open spec fn insert_edit_desc(t: Seq<(int, int, Seq<char>)>, x: (int, int, Seq<char>)) -> Seq<(int, int, Seq<char>)>
    decreases t.len(),
{
    if t.len() == 0 {
        seq![x]
    } else if t[0].0 >= x.0 {
        seq![t[0]] + insert_edit_desc(t.drop_first(), x)
    } else {
        seq![x] + t
    }
}

/// The edits ordered by start, last first; edits with one start keep their order.
pub open spec fn edits_desc(s: Seq<(int, int, Seq<char>)>) -> Seq<(int, int, Seq<char>)>
    decreases s.len(),
{
    if s.len() == 0 {
        Seq::empty()
    } else {
        insert_edit_desc(edits_desc(s.drop_last()), s.last())
    }
}

proof fn lemma_insert_edit_at(t: Seq<(int, int, Seq<char>)>, x: (int, int, Seq<char>), p: int)
    requires
        0 <= p <= t.len(),
        forall|j: int| 0 <= j < p ==> t[j].0 >= x.0,
        p < t.len() ==> t[p].0 < x.0,
    ensures
        insert_edit_desc(t, x) == t.take(p) + seq![x] + t.skip(p),
    decreases t.len(),
{
    if t.len() == 0 {
        assert(t.take(p) + seq![x] + t.skip(p) =~= seq![x]);
    } else if p == 0 {
        assert(t.take(p) + seq![x] + t.skip(p) =~= seq![x] + t);
    } else {
        let r = t.drop_first();
        assert forall|j: int| 0 <= j < p - 1 implies r[j].0 >= x.0 by {
            assert(r[j] == t[j + 1]);
        }
        if p - 1 < r.len() {
            assert(r[p - 1] == t[p]);
        }
        lemma_insert_edit_at(r, x, p - 1);
        assert(t.take(p) + seq![x] + t.skip(p) =~= seq![t[0]] + (r.take(p - 1) + seq![x] + r.skip(p - 1)));
    }
}

/// Order edits by start, last first (a stable sort).
pub fn sort_edits_desc(es: Vec<(usize, usize, String)>) -> (r: Vec<(usize, usize, String)>)
    ensures
        edit_views(r@) == edits_desc(edit_views(es@)),
{
    let ghost ev = edit_views(es@);
    let mut out: Vec<(usize, usize, String)> = Vec::new();
    let mut i: usize = 0;
    while i < es.len()
        invariant
            i <= es@.len(),
            ev == edit_views(es@),
            edit_views(out@) == edits_desc(ev.take(i as int)),
        decreases es@.len() - i,
    {
        assert(ev.take(i + 1).drop_last() =~= ev.take(i as int));
        let x = (es[i].0, es[i].1, copy_str(&es[i].2));
        let ghost xv = (x.0 as int, x.1 as int, x.2@);
        assert(xv == ev[i as int]);
        let ghost t0 = edit_views(out@);
        let mut p: usize = 0;
        while p < out.len() && out[p].0 >= x.0
            invariant
                p <= out@.len(),
                t0 == edit_views(out@),
                xv.0 == x.0 as int,
                forall|j: int| 0 <= j < p ==> t0[j].0 >= xv.0,
            decreases out@.len() - p,
        {
            p += 1;
        }
        proof {
            lemma_insert_edit_at(t0, xv, p as int);
        }
        out.insert(p, x);
        assert(edit_views(out@) =~= t0.take(p as int) + seq![xv] + t0.skip(p as int));
        i += 1;
    }
    assert(ev.take(i as int) =~= ev);
    out
}

} // verus!
