//! A GDScript syntax tree held as plain values: each node's kind, whether it
//! is named, the field under which it hangs from its parent, its byte span
//! and row/column positions, and its children in order.
use vstd::prelude::*;
use vstd::string::StringSliceAdditionalSpecFns;
use vstd::utf8::{
    decode_utf8, encode_utf8, encode_utf8_decode_utf8, encode_utf8_valid_utf8, is_char_boundary,
    is_char_boundary_iff_not_is_continuation_byte, is_char_boundary_start_end_of_seq,
    length_of_first_scalar, pop_first_scalar, valid_utf8, valid_utf8_split,
};

use crate::text::{chars_of, seq_eq};

verus! {

/// One node of a parsed GDScript file.
#[derive(Debug)]
pub struct SyntaxNode {
    pub kind: String,
    pub is_named: bool,
    /// The field name under which this node appears in its parent, if any.
    pub field: Option<String>,
    pub start_byte: usize,
    pub end_byte: usize,
    pub start_row: usize,
    pub start_column: usize,
    pub end_row: usize,
    pub end_column: usize,
    pub children: Vec<SyntaxNode>,
}

/// The characters between two byte offsets of a text.
pub open spec fn text_between(src: Seq<char>, a: int, b: int) -> Seq<char> {
    decode_utf8(encode_utf8(src).subrange(a, b))
}

/// A byte range of `src` that lies on character boundaries.
pub open spec fn span_ok(src: Seq<char>, a: int, b: int) -> bool {
    let bytes = encode_utf8(src);
    &&& 0 <= a <= b <= bytes.len()
    &&& is_char_boundary(bytes, a)
    &&& is_char_boundary(bytes, b)
}

/// The text a node covers.
pub open spec fn text_of(src: Seq<char>, n: SyntaxNode) -> Seq<char> {
    text_between(src, n.start_byte as int, n.end_byte as int)
}

/// Every node of the tree covers a byte range of `src` on character boundaries.
pub open spec fn tree_ok(src: Seq<char>, n: SyntaxNode) -> bool
    decreases n,
{
    &&& span_ok(src, n.start_byte as int, n.end_byte as int)
    &&& forall|i: int| 0 <= i < n.children@.len() ==> tree_ok(src, #[trigger] n.children@[i])
}

/// Each child lies within its parent's span, siblings follow one another
/// without overlap, and identifiers and names are leaves.
pub open spec fn well_nested(n: SyntaxNode) -> bool
    decreases n,
{
    &&& n.start_byte <= n.end_byte
    &&& (n.kind@ == "identifier"@ || n.kind@ == "name"@) ==> n.children@.len() == 0
    &&& forall|i: int|
        0 <= i < n.children@.len() ==> n.start_byte <= (#[trigger] n.children@[i]).start_byte
            && n.children@[i].end_byte <= n.end_byte
    &&& forall|i: int, j: int|
        #![trigger n.children@[i], n.children@[j]]
        0 <= i < j < n.children@.len() ==> n.children@[i].end_byte <= n.children@[j].start_byte
    &&& forall|i: int| 0 <= i < n.children@.len() ==> well_nested(#[trigger] n.children@[i])
}

/// A child of a well-nested, well-spanned node is both too.
pub proof fn lemma_child_ok(src: Seq<char>, n: SyntaxNode, i: int)
    requires
        tree_ok(src, n),
        well_nested(n),
        0 <= i < n.children@.len(),
    ensures
        tree_ok(src, n.children@[i]),
        well_nested(n.children@[i]),
        n.start_byte <= n.children@[i].start_byte,
        n.children@[i].end_byte <= n.end_byte,
{
}

/// The first index of `cs` whose element satisfies `p`.
pub open spec fn first_where(cs: Seq<SyntaxNode>, p: spec_fn(SyntaxNode) -> bool) -> Option<int> {
    if exists|i: int| 0 <= i < cs.len() && p(cs[i]) {
        Some(
            choose|i: int|
                0 <= i < cs.len() && p(cs[i]) && forall|j: int| 0 <= j < i ==> !p(#[trigger] cs[j]),
        )
    } else {
        None
    }
}

pub proof fn lemma_first_where(cs: Seq<SyntaxNode>, p: spec_fn(SyntaxNode) -> bool, i: int)
    requires
        0 <= i < cs.len(),
        p(cs[i]),
        forall|j: int| 0 <= j < i ==> !p(#[trigger] cs[j]),
    ensures
        first_where(cs, p) == Some(i),
{
    let k = choose|k: int|
        0 <= k < cs.len() && p(cs[k]) && forall|j: int| 0 <= j < k ==> !p(#[trigger] cs[j]);
    assert(0 <= k < cs.len() && p(cs[k]) && forall|j: int| 0 <= j < k ==> !p(#[trigger] cs[j]));
    if k < i {
        assert(!p(cs[k]));
    }
    if k > i {
        assert(!p(cs[i]));
    }
}

pub proof fn lemma_first_where_none(cs: Seq<SyntaxNode>, p: spec_fn(SyntaxNode) -> bool)
    requires
        forall|j: int| 0 <= j < cs.len() ==> !p(#[trigger] cs[j]),
    ensures
        first_where(cs, p) is None,
{
}

/// The node's child in field `name` (`child_by_field_name`): the first child with that field.
pub open spec fn field_child(n: SyntaxNode, name: Seq<char>) -> Option<SyntaxNode> {
    match first_where(n.children@, |c: SyntaxNode| c.field matches Some(f) && f@ == name) {
        Some(i) => Some(n.children@[i]),
        None => None,
    }
}

/// The named children, in order.
pub open spec fn named_children(cs: Seq<SyntaxNode>) -> Seq<SyntaxNode> {
    cs.filter(|c: SyntaxNode| c.is_named)
}

/// `named_child(i)`.
pub open spec fn named_child(n: SyntaxNode, i: int) -> Option<SyntaxNode> {
    let nc = named_children(n.children@);
    if 0 <= i < nc.len() {
        Some(nc[i])
    } else {
        None
    }
}

/// `child(i)`.
pub open spec fn child(n: SyntaxNode, i: int) -> Option<SyntaxNode> {
    if 0 <= i < n.children@.len() {
        Some(n.children@[i])
    } else {
        None
    }
}

/// In valid UTF-8, the position after an ASCII byte that starts a character
/// also starts a character (or ends the text).
pub proof fn lemma_boundary_after_ascii(bytes: Seq<u8>, i: int)
    requires
        valid_utf8(bytes),
        0 <= i < bytes.len(),
        is_char_boundary(bytes, i),
        bytes[i] < 0x80,
    ensures
        is_char_boundary(bytes, i + 1),
    decreases bytes.len(),
{
    let l = length_of_first_scalar(bytes);
    let pop = pop_first_scalar(bytes);
    if i == 0 {
        assert(l == 1);
        assert(is_char_boundary(pop, 0));
    } else {
        assert(is_char_boundary(pop, i - l));
        assert(pop[i - l] == bytes[i]);
        lemma_boundary_after_ascii(pop, i - l);
    }
}

/// In valid UTF-8, the position after any ASCII byte starts a character (or
/// ends the text).
pub proof fn lemma_after_ascii_boundary(bytes: Seq<u8>, i: int)
    requires
        valid_utf8(bytes),
        0 <= i < bytes.len(),
        bytes[i] < 0x80,
    ensures
        is_char_boundary(bytes, i + 1),
{
    is_char_boundary_iff_not_is_continuation_byte(bytes, i);
    lemma_boundary_after_ascii(bytes, i);
}

/// The children of every node end in order.
#[verifier::opaque]
pub open spec fn ends_ordered(n: SyntaxNode) -> bool
    decreases n,
{
    &&& forall|i: int, j: int|
        #![trigger n.children@[i], n.children@[j]]
        0 <= i < j < n.children@.len() ==> n.children@[i].end_byte <= n.children@[j].end_byte
    &&& forall|i: int| 0 <= i < n.children@.len() ==> ends_ordered(#[trigger] n.children@[i])
}

/// Children of an ordered tree are ordered trees, and end in order.
pub proof fn lemma_ends_ordered(n: SyntaxNode, i: int, j: int)
    requires
        ends_ordered(n),
        0 <= i < n.children@.len(),
    ensures
        ends_ordered(n.children@[i]),
        i < j < n.children@.len() ==> n.children@[i].end_byte <= n.children@[j].end_byte,
{
    reveal(ends_ordered);
}

/// Children that end before their next sibling starts end in order.
pub proof fn lemma_nested_ends_ordered(n: SyntaxNode)
    requires
        well_nested(n),
    ensures
        ends_ordered(n),
    decreases n,
{
    reveal(ends_ordered);
    assert forall|i: int| 0 <= i < n.children@.len() implies ends_ordered(#[trigger] n.children@[i]) by {
        lemma_nested_ends_ordered(n.children@[i]);
    }
    assert forall|i: int, j: int| 0 <= i < j < n.children@.len() implies n.children@[i].end_byte
        <= n.children@[j].end_byte by {
        assert(well_nested(n.children@[j]));
    }
}

/// Every position right after a line feed starts a character.
pub proof fn lemma_after_newline_boundary(bytes: Seq<u8>, i: int)
    requires
        valid_utf8(bytes),
        0 <= i < bytes.len(),
        bytes[i] == 10u8,
    ensures
        is_char_boundary(bytes, i + 1),
{
    is_char_boundary_iff_not_is_continuation_byte(bytes, i);
    lemma_boundary_after_ascii(bytes, i);
}

pub proof fn lemma_prefix_boundary(bytes: Seq<u8>, a: int, b: int)
    requires
        vstd::utf8::valid_utf8(bytes),
        0 <= a <= b <= bytes.len(),
        is_char_boundary(bytes, a),
        is_char_boundary(bytes, b),
    ensures
        vstd::utf8::valid_utf8(bytes.subrange(0, b)),
        is_char_boundary(bytes.subrange(0, b), a),
{
    valid_utf8_split(bytes, b);
    let p = bytes.subrange(0, b);
    if a < b {
        is_char_boundary_iff_not_is_continuation_byte(bytes, a);
        is_char_boundary_iff_not_is_continuation_byte(p, a);
    } else {
        is_char_boundary_start_end_of_seq(p);
    }
}

/// The text between two byte offsets (`source[a..b].to_string()`).
pub fn slice_str(s: &str, a: usize, b: usize) -> (r: String)
    requires
        span_ok(s@, a as int, b as int),
    ensures
        r@ == text_between(s@, a as int, b as int),
{
    proof {
        encode_utf8_valid_utf8(s@);
        lemma_prefix_boundary(s.spec_bytes(), a as int, b as int);
    }
    let (left, _) = s.split_at(b);
    let (_, mid) = left.split_at(a);
    proof {
        assert(mid.spec_bytes() =~= s.spec_bytes().subrange(a as int, b as int));
        encode_utf8_decode_utf8(mid@);
    }
    mid.to_owned()
}

/// A span from a boundary to the end, and a node's span inside it, give a
/// span from the first boundary to the node's start.
pub proof fn lemma_span_join(src: Seq<char>, a: int, b: int, c: int)
    requires
        span_ok(src, a, encode_utf8(src).len() as int),
        span_ok(src, b, c),
        a <= b,
    ensures
        span_ok(src, a, b),
{
}

/// The text with the byte range `a..b` replaced by `rep`.
pub open spec fn span_replaced(src: Seq<char>, a: int, b: int, rep: Seq<char>) -> Seq<char> {
    text_between(src, 0, a) + rep + text_between(src, b, encode_utf8(src).len() as int)
}

/// `source[..a] + rep + source[b..]`.
pub fn replace_span(s: &str, a: usize, b: usize, rep: &str) -> (r: String)
    requires
        span_ok(s@, a as int, b as int),
    ensures
        r@ == span_replaced(s@, a as int, b as int, rep@),
{
    let n = s.as_bytes().len();
    proof {
        encode_utf8_valid_utf8(s@);
        is_char_boundary_start_end_of_seq(s.spec_bytes());
    }
    let head = slice_str(s, 0, a);
    let tail = slice_str(s, b, n);
    let mut out = String::new();
    crate::text::push_str(&mut out, head.as_str());
    crate::text::push_str(&mut out, rep);
    crate::text::push_str(&mut out, tail.as_str());
    out
}

/// The source text a node covers.
pub fn node_text(node: &SyntaxNode, source: &str) -> (r: String)
    requires
        span_ok(source@, node.start_byte as int, node.end_byte as int),
    ensures
        r@ == text_of(source@, *node),
{
    slice_str(source, node.start_byte, node.end_byte)
}

/// The node's kind equals `k`.
pub fn kind_is(node: &SyntaxNode, k: &str) -> (r: bool)
    ensures
        r == (node.kind@ == k@),
{
    let a = chars_of(node.kind.as_str());
    let b = chars_of(k);
    seq_eq(&a, &b)
}

/// Index of the first child in field `name`.
pub fn field_child_index(node: &SyntaxNode, name: &str) -> (r: Option<usize>)
    ensures
        match r {
            Some(i) => i < node.children@.len() && first_where(
                node.children@,
                |c: SyntaxNode| c.field matches Some(f) && f@ == name@,
            ) == Some(i as int),
            None => first_where(
                node.children@,
                |c: SyntaxNode| c.field matches Some(f) && f@ == name@,
            ) is None,
        },
{
    let ghost p = |c: SyntaxNode| c.field matches Some(f) && f@ == name@;
    let nm = chars_of(name);
    let mut i: usize = 0;
    while i < node.children.len()
        invariant
            i <= node.children@.len(),
            nm@ == name@,
            p == (|c: SyntaxNode| c.field matches Some(f) && f@ == name@),
            forall|j: int| 0 <= j < i ==> !p(#[trigger] node.children@[j]),
        decreases node.children@.len() - i,
    {
        let found = match &node.children[i].field {
            Some(f) => {
                let fc = chars_of(f.as_str());
                seq_eq(&fc, &nm)
            },
            None => false,
        };
        if found {
            proof {
                lemma_first_where(node.children@, p, i as int);
            }
            return Some(i);
        }
        i += 1;
    }
    proof {
        lemma_first_where_none(node.children@, p);
    }
    None
}

/// `child_by_field_name`.
pub fn child_by_field_name<'a>(node: &'a SyntaxNode, name: &str) -> (r: Option<&'a SyntaxNode>)
    ensures
        match r {
            Some(c) => field_child(*node, name@) == Some(*c) && exists|i: int|
                0 <= i < node.children@.len() && node.children@[i] == *c,
            None => field_child(*node, name@) is None,
        },
{
    match field_child_index(node, name) {
        Some(i) => Some(&node.children[i]),
        None => None,
    }
}

proof fn lemma_named_push(cs: Seq<SyntaxNode>, i: int)
    requires
        0 <= i < cs.len(),
    ensures
        named_children(cs.take(i + 1)) == if cs[i].is_named {
            named_children(cs.take(i)).push(cs[i])
        } else {
            named_children(cs.take(i))
        },
{
    assert(cs.take(i + 1).drop_last() =~= cs.take(i));
    reveal(Seq::filter);
}

proof fn lemma_named_in(cs: Seq<SyntaxNode>, k: int)
    requires
        0 <= k <= cs.len(),
    ensures
        forall|j: int|
            0 <= j < named_children(cs.take(k)).len() ==> exists|i: int|
                0 <= i < k && cs[i] == #[trigger] named_children(cs.take(k))[j],
    decreases k,
{
    if k > 0 {
        lemma_named_in(cs, k - 1);
        lemma_named_push(cs, k - 1);
        let prev = named_children(cs.take(k - 1));
        let cur = named_children(cs.take(k));
        assert forall|j: int| 0 <= j < cur.len() implies exists|i: int|
            0 <= i < k && cs[i] == #[trigger] cur[j] by {
            if j < prev.len() {
                assert(cur[j] == prev[j]);
                let i0 = choose|i: int| 0 <= i < k - 1 && cs[i] == prev[j];
                assert(0 <= i0 < k && cs[i0] == cur[j]);
            } else {
                assert(cur[j] == cs[k - 1]);
            }
        }
    } else {
        assert(cs.take(0) =~= Seq::<SyntaxNode>::empty());
        reveal(Seq::filter);
    }
}

/// A named child is one of the children.
pub proof fn lemma_named_child_in(n: SyntaxNode, k: int)
    ensures
        named_child(n, k) matches Some(c) ==> exists|i: int| 0 <= i < n.children@.len() && n.children@[i] == c,
{
    lemma_named_in(n.children@, n.children@.len() as int);
    assert(n.children@.take(n.children@.len() as int) =~= n.children@);
    if named_child(n, k) is Some {
        let c = named_children(n.children@)[k];
        let i = choose|i: int| 0 <= i < n.children@.len() && n.children@[i] == #[trigger] named_children(n.children@.take(n.children@.len() as int))[k];
        assert(n.children@[i] == c);
    }
}

/// The first child of kind `k`.
pub open spec fn kind_child(n: SyntaxNode, k: Seq<char>) -> Option<int> {
    first_where(n.children@, |c: SyntaxNode| c.kind@ == k)
}

/// Index of the first child of kind `k`.
pub fn first_child_of_kind(node: &SyntaxNode, k: &str) -> (r: Option<usize>)
    ensures
        match r {
            Some(i) => i < node.children@.len() && kind_child(*node, k@) == Some(i as int),
            None => kind_child(*node, k@) is None,
        },
{
    let ghost p = |c: SyntaxNode| c.kind@ == k@;
    let mut i: usize = 0;
    while i < node.children.len()
        invariant
            i <= node.children@.len(),
            p == (|c: SyntaxNode| c.kind@ == k@),
            forall|j: int| 0 <= j < i ==> !p(#[trigger] node.children@[j]),
        decreases node.children@.len() - i,
    {
        if kind_is(&node.children[i], k) {
            proof {
                lemma_first_where(node.children@, p, i as int);
            }
            return Some(i);
        }
        i += 1;
    }
    None
}

/// Index of the first named child.
pub open spec fn first_named(n: SyntaxNode) -> Option<int> {
    first_where(n.children@, |c: SyntaxNode| c.is_named)
}

pub fn first_named_child(node: &SyntaxNode) -> (r: Option<usize>)
    ensures
        match r {
            Some(i) => i < node.children@.len() && first_named(*node) == Some(i as int),
            None => first_named(*node) is None,
        },
{
    let ghost p = |c: SyntaxNode| c.is_named;
    let mut i: usize = 0;
    while i < node.children.len()
        invariant
            i <= node.children@.len(),
            p == (|c: SyntaxNode| c.is_named),
            forall|j: int| 0 <= j < i ==> !p(#[trigger] node.children@[j]),
        decreases node.children@.len() - i,
    {
        if node.children[i].is_named {
            proof {
                lemma_first_where(node.children@, p, i as int);
            }
            return Some(i);
        }
        i += 1;
    }
    None
}

/// `named_child(k)`.
pub fn named_child_at(node: &SyntaxNode, k: usize) -> (r: Option<&SyntaxNode>)
    ensures
        match r {
            Some(c) => named_child(*node, k as int) == Some(*c),
            None => named_child(*node, k as int) is None,
        },
{
    let ghost cs = node.children@;
    let mut seen: usize = 0;
    let mut i: usize = 0;
    while i < node.children.len()
        invariant
            i <= cs.len(),
            cs == node.children@,
            seen == named_children(cs.take(i as int)).len(),
            seen <= k,
            seen <= i,
        decreases cs.len() - i,
    {
        proof {
            lemma_named_push(cs, i as int);
        }
        if node.children[i].is_named {
            if seen == k {
                proof {
                    lemma_named_prefix(cs, (i + 1) as int);
                    assert(named_children(cs.take(i + 1))[k as int] == cs[i as int]);
                }
                return Some(&node.children[i]);
            }
            seen += 1;
        }
        i += 1;
    }
    assert(cs.take(i as int) =~= cs);
    None
}

proof fn lemma_named_prefix(cs: Seq<SyntaxNode>, i: int)
    requires
        0 <= i <= cs.len(),
    ensures
        forall|j: int|
            0 <= j < named_children(cs.take(i)).len() ==> named_children(cs)[j]
                == #[trigger] named_children(cs.take(i))[j],
        named_children(cs.take(i)).len() <= named_children(cs).len(),
    decreases cs.len() - i,
{
    if i < cs.len() {
        lemma_named_prefix(cs, i + 1);
        lemma_named_push(cs, i);
        assert forall|j: int| 0 <= j < named_children(cs.take(i)).len() implies named_children(cs)[j]
            == #[trigger] named_children(cs.take(i))[j] by {
            assert(named_children(cs.take(i + 1))[j] == named_children(cs.take(i))[j]);
        }
    } else {
        assert(cs.take(i) =~= cs);
    }
}

/// Number of named children.
pub fn named_child_count(node: &SyntaxNode) -> (r: usize)
    ensures
        r == named_children(node.children@).len(),
{
    let ghost cs = node.children@;
    let mut seen: usize = 0;
    let mut i: usize = 0;
    while i < node.children.len()
        invariant
            i <= cs.len(),
            cs == node.children@,
            seen == named_children(cs.take(i as int)).len(),
            seen <= i,
        decreases cs.len() - i,
    {
        proof {
            lemma_named_push(cs, i as int);
        }
        if node.children[i].is_named {
            seen += 1;
        }
        i += 1;
    }
    assert(cs.take(i as int) =~= cs);
    seen
}

} // verus!
