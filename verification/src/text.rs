//! Character-level text model shared by the refactorings: whitespace,
//! lines, searching, joining, and conversions between `str` and `Vec<char>`.
use vstd::prelude::*;

verus! {

// ── Specifications ─────────────────────────────────────────────────────────

/// `char::is_whitespace`: the Unicode `White_Space` property.
pub open spec fn is_ws(c: char) -> bool {
    let u = c as u32;
    ||| u == 0x20
    ||| 0x09 <= u <= 0x0d
    ||| u == 0x85
    ||| u == 0xa0
    ||| u == 0x1680
    ||| 0x2000 <= u <= 0x200a
    ||| u == 0x2028
    ||| u == 0x2029
    ||| u == 0x202f
    ||| u == 0x205f
    ||| u == 0x3000
}

/// Number of leading whitespace characters.
pub open spec fn lead_ws(s: Seq<char>) -> nat
    decreases s.len(),
{
    if s.len() > 0 && is_ws(s[0]) {
        1 + lead_ws(s.drop_first())
    } else {
        0
    }
}

/// Number of trailing whitespace characters.
pub open spec fn trail_ws(s: Seq<char>) -> nat
    decreases s.len(),
{
    if s.len() > 0 && is_ws(s.last()) {
        1 + trail_ws(s.drop_last())
    } else {
        0
    }
}

/// Number of leading characters equal to `c`.
pub open spec fn lead_eq(s: Seq<char>, c: char) -> nat
    decreases s.len(),
{
    if s.len() > 0 && s[0] == c {
        1 + lead_eq(s.drop_first(), c)
    } else {
        0
    }
}

/// Number of trailing characters equal to `c`.
pub open spec fn trail_eq(s: Seq<char>, c: char) -> nat
    decreases s.len(),
{
    if s.len() > 0 && s.last() == c {
        1 + trail_eq(s.drop_last(), c)
    } else {
        0
    }
}

/// `str::trim_matches(c)`: every leading and trailing `c` removed.
pub open spec fn trim_matches(s: Seq<char>, c: char) -> Seq<char> {
    let r = s.skip(lead_eq(s, c) as int);
    r.take(r.len() - trail_eq(r, c))
}

/// `str::trim_end_matches(c)`: every trailing `c` removed.
pub open spec fn trim_matches_end(s: Seq<char>, c: char) -> Seq<char> {
    s.take(s.len() - trail_eq(s, c))
}

/// `str::trim_start`.
pub open spec fn trim_start(s: Seq<char>) -> Seq<char> {
    s.skip(lead_ws(s) as int)
}

/// `str::trim_end`.
pub open spec fn trim_end(s: Seq<char>) -> Seq<char> {
    s.take(s.len() - trail_ws(s))
}

/// `str::trim`.
pub open spec fn trim(s: Seq<char>) -> Seq<char> {
    trim_end(trim_start(s))
}

/// The whitespace prefix of `s`.
pub open spec fn indent_of(s: Seq<char>) -> Seq<char> {
    s.take(lead_ws(s) as int)
}

/// True when `s` holds only whitespace (`s.trim().is_empty()`).
pub open spec fn is_blank(s: Seq<char>) -> bool {
    forall|i: int| 0 <= i < s.len() ==> is_ws(#[trigger] s[i])
}

/// `s.starts_with(p)`.
pub open spec fn starts_with(s: Seq<char>, p: Seq<char>) -> bool {
    p.len() <= s.len() && s.take(p.len() as int) == p
}

/// `s.ends_with(p)`.
pub open spec fn ends_with(s: Seq<char>, p: Seq<char>) -> bool {
    p.len() <= s.len() && s.skip(s.len() - p.len()) == p
}

/// `p` occurs in `s` at position `i`.
pub open spec fn occurs_at(s: Seq<char>, p: Seq<char>, i: int) -> bool {
    0 <= i && i + p.len() <= s.len() && s.subrange(i, i + p.len()) == p
}

/// `s.contains(p)`.
pub open spec fn contains(s: Seq<char>, p: Seq<char>) -> bool {
    exists|i: int| occurs_at(s, p, i)
}

/// Position of the first occurrence of `p` in `s` (`str::find`).
pub open spec fn first_occurrence(s: Seq<char>, p: Seq<char>) -> Option<int> {
    if contains(s, p) {
        Some(choose|i: int| occurs_at(s, p, i) && forall|j: int| 0 <= j < i ==> !occurs_at(s, p, j))
    } else {
        None
    }
}

/// The pieces of `s` between line feeds, in order; there is always at least one.
pub open spec fn nl_pieces(s: Seq<char>) -> Seq<Seq<char>>
    decreases s.len(),
{
    if s.len() == 0 {
        seq![Seq::empty()]
    } else {
        let p = nl_pieces(s.drop_last());
        if s.last() == '\n' {
            p.push(Seq::empty())
        } else {
            p.update(p.len() - 1, p.last().push(s.last()))
        }
    }
}

/// Drops one carriage return that ends a line.
pub open spec fn strip_cr(l: Seq<char>) -> Seq<char> {
    if l.len() > 0 && l.last() == '\r' {
        l.drop_last()
    } else {
        l
    }
}

/// `str::lines`: lines end at `\n` (a `\r` right before it is dropped); the
/// line after the last `\n` counts only when it is not empty.
pub open spec fn lines(s: Seq<char>) -> Seq<Seq<char>> {
    let p = nl_pieces(s);
    let n = p.len() as int;
    let k = if p[n - 1].len() == 0 {
        n - 1
    } else {
        n
    };
    Seq::new(k as nat, |i: int| if i < n - 1 { strip_cr(p[i]) } else { p[i] })
}

/// The `line`-th line, or the empty text when there is none (`lines().nth(line).unwrap_or("")`).
pub open spec fn nth_line(s: Seq<char>, line: int) -> Seq<char> {
    if 0 <= line < lines(s).len() {
        lines(s)[line]
    } else {
        Seq::empty()
    }
}

/// `parts.join(sep)`.
pub open spec fn join(parts: Seq<Seq<char>>, sep: Seq<char>) -> Seq<char>
    decreases parts.len(),
{
    if parts.len() == 0 {
        Seq::empty()
    } else if parts.len() == 1 {
        parts[0]
    } else {
        join(parts.drop_last(), sep) + sep + parts.last()
    }
}

/// `s.repeat(n)`.
pub open spec fn repeat(s: Seq<char>, n: nat) -> Seq<char>
    decreases n,
{
    if n == 0 {
        Seq::empty()
    } else {
        repeat(s, (n - 1) as nat) + s
    }
}

/// Number of line feeds in `s`.
pub open spec fn count_nl(s: Seq<char>) -> nat
    decreases s.len(),
{
    if s.len() == 0 {
        0
    } else {
        count_nl(s.drop_last()) + if s.last() == '\n' {
            1nat
        } else {
            0nat
        }
    }
}

/// `str::split(c)`: the pieces of `s` between occurrences of `c`, in order;
/// there is always at least one.
pub open spec fn split_pieces(s: Seq<char>, c: char) -> Seq<Seq<char>>
    decreases s.len(),
{
    if s.len() == 0 {
        seq![Seq::empty()]
    } else {
        let p = split_pieces(s.drop_last(), c);
        if s.last() == c {
            p.push(Seq::empty())
        } else {
            p.update(p.len() - 1, p.last().push(s.last()))
        }
    }
}

/// The text of an optional string.
pub open spec fn opt_view(o: Option<String>) -> Option<Seq<char>> {
    match o {
        Some(s) => Some(s@),
        None => None,
    }
}

/// The decimal digits of `n`.
pub open spec fn decimal(n: nat) -> Seq<char>
    decreases n,
{
    if n < 10 {
        seq![(('0' as u32) + n) as char]
    } else {
        decimal(n / 10).push((('0' as u32) + n % 10) as char)
    }
}

/// The texts of the pieces, one after another.
pub open spec fn concat_views(ps: Seq<&str>) -> Seq<char>
    decreases ps.len(),
{
    if ps.len() == 0 {
        Seq::empty()
    } else {
        concat_views(ps.drop_last()) + ps.last()@
    }
}

/// `a < b` for strings: lexicographic by code point, which is the order of
/// their UTF-8 bytes.
pub open spec fn lex_lt(a: Seq<char>, b: Seq<char>) -> bool
    decreases a.len(),
{
    if a.len() == 0 {
        b.len() > 0
    } else if b.len() == 0 {
        false
    } else if a[0] != b[0] {
        (a[0] as u32) < (b[0] as u32)
    } else {
        lex_lt(a.drop_first(), b.drop_first())
    }
}

// ── Lemmas ─────────────────────────────────────────────────────────────────

pub proof fn lemma_nl_pieces_len(s: Seq<char>)
    ensures
        nl_pieces(s).len() == count_nl(s) + 1,
    decreases s.len(),
{
    if s.len() > 0 {
        lemma_nl_pieces_len(s.drop_last());
    }
}

pub proof fn lemma_split_pieces_len(s: Seq<char>, c: char)
    ensures
        split_pieces(s, c).len() >= 1,
    decreases s.len(),
{
    if s.len() > 0 {
        lemma_split_pieces_len(s.drop_last(), c);
    }
}

proof fn lemma_char_u32_inj(x: char, y: char)
    ensures
        (x as u32) == (y as u32) ==> x == y,
{
    if (x as u32) == (y as u32) {
        vstd::utf8::char_u32_cast(x, x as u32);
        vstd::utf8::char_u32_cast(y, y as u32);
    }
}

proof fn lemma_lex_irrefl(a: Seq<char>)
    ensures
        !lex_lt(a, a),
    decreases a.len(),
{
    if a.len() > 0 {
        lemma_lex_irrefl(a.drop_first());
    }
}

proof fn lemma_lex_total(a: Seq<char>, b: Seq<char>)
    ensures
        lex_lt(a, b) ==> !lex_lt(b, a),
        a != b ==> lex_lt(a, b) || lex_lt(b, a),
    decreases a.len(),
{
    if a.len() > 0 && b.len() > 0 {
        lemma_lex_total(a.drop_first(), b.drop_first());
        lemma_char_u32_inj(a[0], b[0]);
        if a != b && a[0] == b[0] {
            assert(a.drop_first() != b.drop_first()) by {
                if a.drop_first() == b.drop_first() {
                    assert(a =~= seq![a[0]] + a.drop_first());
                    assert(b =~= seq![b[0]] + b.drop_first());
                }
            }
        }
    } else if a.len() == 0 && b.len() == 0 {
        assert(a =~= b);
    }
}

proof fn lemma_lex_trans(a: Seq<char>, b: Seq<char>, c: Seq<char>)
    ensures
        lex_lt(a, b) && lex_lt(b, c) ==> lex_lt(a, c),
    decreases a.len(),
{
    if a.len() > 0 && b.len() > 0 && c.len() > 0 {
        lemma_lex_trans(a.drop_first(), b.drop_first(), c.drop_first());
        lemma_char_u32_inj(a[0], b[0]);
        lemma_char_u32_inj(b[0], c[0]);
        lemma_char_u32_inj(a[0], c[0]);
    }
}

/// `lex_lt` is a strict total order.
pub proof fn lemma_lex_order(a: Seq<char>, b: Seq<char>, c: Seq<char>)
    ensures
        !lex_lt(a, a),
        lex_lt(a, b) ==> !lex_lt(b, a),
        a != b ==> lex_lt(a, b) || lex_lt(b, a),
        lex_lt(a, b) && lex_lt(b, c) ==> lex_lt(a, c),
{
    lemma_lex_irrefl(a);
    lemma_lex_total(a, b);
    lemma_lex_trans(a, b, c);
}

pub proof fn lemma_lead_ws(s: Seq<char>, k: int)
    requires
        0 <= k <= s.len(),
        forall|i: int| 0 <= i < k ==> is_ws(#[trigger] s[i]),
        k == s.len() || !is_ws(s[k]),
    ensures
        lead_ws(s) == k,
    decreases k,
{
    if k > 0 {
        lemma_lead_ws(s.drop_first(), k - 1);
    }
}

pub proof fn lemma_lead_eq(s: Seq<char>, c: char, k: int)
    requires
        0 <= k <= s.len(),
        forall|i: int| 0 <= i < k ==> s[i] == c,
        k == s.len() || s[k] != c,
    ensures
        lead_eq(s, c) == k,
    decreases k,
{
    if k > 0 {
        lemma_lead_eq(s.drop_first(), c, k - 1);
    }
}

pub proof fn lemma_trail_eq(s: Seq<char>, c: char, k: int)
    requires
        0 <= k <= s.len(),
        forall|i: int| s.len() - k <= i < s.len() ==> s[i] == c,
        k == s.len() || s[s.len() - k - 1] != c,
    ensures
        trail_eq(s, c) == k,
    decreases k,
{
    if k > 0 {
        lemma_trail_eq(s.drop_last(), c, k - 1);
    }
}

pub proof fn lemma_lead_ws_bound(s: Seq<char>)
    ensures
        lead_ws(s) <= s.len(),
        forall|i: int| 0 <= i < lead_ws(s) ==> is_ws(#[trigger] s[i]),
        lead_ws(s) == s.len() || !is_ws(s[lead_ws(s) as int]),
    decreases s.len(),
{
    if s.len() > 0 && is_ws(s[0]) {
        lemma_lead_ws_bound(s.drop_first());
        assert forall|i: int| 0 <= i < lead_ws(s) implies is_ws(#[trigger] s[i]) by {
            if i > 0 {
                assert(s[i] == s.drop_first()[i - 1]);
            }
        }
    }
}

pub proof fn lemma_trail_ws(s: Seq<char>, k: int)
    requires
        0 <= k <= s.len(),
        forall|i: int| s.len() - k <= i < s.len() ==> is_ws(#[trigger] s[i]),
        k == s.len() || !is_ws(s[s.len() - k - 1]),
    ensures
        trail_ws(s) == k,
    decreases k,
{
    if k > 0 {
        lemma_trail_ws(s.drop_last(), k - 1);
    }
}

pub proof fn lemma_trail_ws_bound(s: Seq<char>)
    ensures
        trail_ws(s) <= s.len(),
        forall|i: int| s.len() - trail_ws(s) <= i < s.len() ==> is_ws(#[trigger] s[i]),
        trail_ws(s) == s.len() || !is_ws(s[s.len() - trail_ws(s) - 1]),
    decreases s.len(),
{
    if s.len() > 0 && is_ws(s.last()) {
        lemma_trail_ws_bound(s.drop_last());
        assert forall|i: int| s.len() - trail_ws(s) <= i < s.len() implies is_ws(#[trigger] s[i]) by {
            if i < s.len() - 1 {
                assert(s[i] == s.drop_last()[i]);
            }
        }
    }
}

/// A text is blank exactly when its leading whitespace covers all of it.
pub proof fn lemma_blank_iff_lead(s: Seq<char>)
    ensures
        is_blank(s) <==> lead_ws(s) == s.len(),
        is_blank(s) <==> trim(s).len() == 0,
{
    lemma_lead_ws_bound(s);
    let t = trim_start(s);
    lemma_trail_ws_bound(t);
    if is_blank(s) {
        lemma_lead_ws(s, s.len() as int);
    } else {
        assert(t.len() > 0);
        assert(t[0] == s[lead_ws(s) as int]);
        if trail_ws(t) == t.len() {
            assert(is_ws(t[0]));
        }
    }
}

pub proof fn lemma_join_push(parts: Seq<Seq<char>>, sep: Seq<char>, x: Seq<char>)
    ensures
        join(parts.push(x), sep) == if parts.len() == 0 {
            x
        } else {
            join(parts, sep) + sep + x
        },
{
    assert(parts.push(x).drop_last() =~= parts);
}

// ── Executable helpers ─────────────────────────────────────────────────────

/// Appends one character to a string (`String::push`).
#[verifier::external_body]
pub(crate) fn push_char(s: &mut String, c: char)
    ensures
        final(s)@ == old(s)@.push(c),
{
    s.push(c);
}

/// Appends a text to a string.
pub(crate) fn push_str(s: &mut String, t: &str)
    ensures
        final(s)@ == old(s)@ + t@,
{
    s.append(t);
}

/// The characters of a string slice, in order.
pub fn chars_of(s: &str) -> (v: Vec<char>)
    ensures
        v@ == s@,
{
    let mut v: Vec<char> = Vec::new();
    for c in it: s.chars()
        invariant
            v@ == it.seq().take(it.index() as int),
            it.seq() == s@,
    {
        v.push(c);
    }
    assert(v@ =~= s@);
    v
}

/// Appends characters to a string.
pub(crate) fn push_chars(s: &mut String, v: &[char])
    ensures
        final(s)@ == old(s)@ + v@,
{
    let ghost s0 = s@;
    let mut i: usize = 0;
    while i < v.len()
        invariant
            i <= v@.len(),
            s@ == s0 + v@.take(i as int),
        decreases v@.len() - i,
    {
        push_char(s, v[i]);
        i += 1;
        assert(v@.take(i as int) =~= v@.take(i - 1).push(v@[i - 1]));
    }
    assert(v@.take(i as int) =~= v@);
}

/// A string made of the given characters.
pub fn string_of(v: &[char]) -> (s: String)
    ensures
        s@ == v@,
{
    let mut s = String::new();
    push_chars(&mut s, v);
    s
}

/// `char::is_whitespace`.
pub fn is_whitespace(c: char) -> (b: bool)
    ensures
        b == is_ws(c),
{
    let u = c as u32;
    u == 0x20 || (0x09 <= u && u <= 0x0d) || u == 0x85 || u == 0xa0 || u == 0x1680 || (0x2000
        <= u && u <= 0x200a) || u == 0x2028 || u == 0x2029 || u == 0x202f || u == 0x205f || u
        == 0x3000
}

/// Count of leading whitespace characters.
pub fn lead_ws_len(s: &[char]) -> (n: usize)
    ensures
        n == lead_ws(s@),
{
    let mut i: usize = 0;
    while i < s.len() && is_whitespace(s[i])
        invariant
            i <= s@.len(),
            forall|j: int| 0 <= j < i ==> is_ws(#[trigger] s@[j]),
        decreases s@.len() - i,
    {
        i += 1;
    }
    proof {
        lemma_lead_ws(s@, i as int);
    }
    i
}

/// Count of trailing whitespace characters.
pub fn trail_ws_len(s: &[char]) -> (n: usize)
    ensures
        n == trail_ws(s@),
{
    let mut k: usize = 0;
    while k < s.len() && is_whitespace(s[s.len() - 1 - k])
        invariant
            k <= s@.len(),
            forall|j: int| s@.len() - k <= j < s@.len() ==> is_ws(#[trigger] s@[j]),
        decreases s@.len() - k,
    {
        k += 1;
    }
    proof {
        lemma_trail_ws(s@, k as int);
    }
    k
}

/// `str::trim_matches(c)`.
pub fn trim_char(s: &[char], c: char) -> (r: Vec<char>)
    ensures
        r@ == trim_matches(s@, c),
{
    let mut a: usize = 0;
    while a < s.len() && s[a] == c
        invariant
            a <= s@.len(),
            forall|j: int| 0 <= j < a ==> s@[j] == c,
        decreases s@.len() - a,
    {
        a += 1;
    }
    proof {
        lemma_lead_eq(s@, c, a as int);
    }
    let t = slice_of(s, a, s.len());
    assert(t@ =~= s@.skip(a as int));
    let mut k: usize = 0;
    while k < t.len() && t[t.len() - 1 - k] == c
        invariant
            k <= t@.len(),
            forall|j: int| t@.len() - k <= j < t@.len() ==> t@[j] == c,
        decreases t@.len() - k,
    {
        k += 1;
    }
    proof {
        lemma_trail_eq(t@, c, k as int);
    }
    let r = slice_of(&t, 0, t.len() - k);
    assert(r@ =~= t@.take(t@.len() - k));
    r
}

/// `str::trim`.
pub fn trimmed(s: &[char]) -> (r: Vec<char>)
    ensures
        r@ == trim(s@),
{
    let a = lead_ws_len(s);
    proof {
        lemma_lead_ws_bound(s@);
    }
    let t = slice_of(s, a, s.len());
    assert(t@ =~= trim_start(s@));
    let b = trail_ws_len(&t);
    proof {
        lemma_trail_ws_bound(t@);
    }
    let r = slice_of(&t, 0, t.len() - b);
    assert(r@ =~= trim_end(t@));
    r
}

/// `str::trim_start`.
pub fn trimmed_start(s: &[char]) -> (r: Vec<char>)
    ensures
        r@ == trim_start(s@),
{
    let a = lead_ws_len(s);
    proof {
        lemma_lead_ws_bound(s@);
    }
    let t = slice_of(s, a, s.len());
    assert(t@ =~= trim_start(s@));
    t
}

/// `str::trim_end`.
pub fn trimmed_end(s: &[char]) -> (r: Vec<char>)
    ensures
        r@ == trim_end(s@),
{
    let b = trail_ws_len(s);
    proof {
        lemma_trail_ws_bound(s@);
    }
    let r = slice_of(s, 0, s.len() - b);
    assert(r@ =~= trim_end(s@));
    r
}

/// True when the text holds only whitespace.
pub fn blank(s: &[char]) -> (b: bool)
    ensures
        b == is_blank(s@),
{
    let n = lead_ws_len(s);
    proof {
        lemma_blank_iff_lead(s@);
    }
    n == s.len()
}

/// `s.trim_end_matches(c)`.
pub fn trimmed_end_char(s: &[char], c: char) -> (r: Vec<char>)
    ensures
        r@ == trim_matches_end(s@, c),
        r@.len() <= s@.len(),
        r@ == s@.take(r@.len() as int),
{
    let mut k: usize = s.len();
    while k > 0 && s[k - 1] == c
        invariant
            k <= s@.len(),
            forall|j: int| k <= j < s@.len() ==> s@[j] == c,
        decreases k,
    {
        k -= 1;
    }
    proof {
        lemma_trail_eq(s@, c, (s@.len() - k) as int);
    }
    let r = slice_of(s, 0, k);
    assert(r@ =~= s@.take(k as int));
    r
}

/// A copy of `s[from..to]`.
pub fn slice_of(s: &[char], from: usize, to: usize) -> (r: Vec<char>)
    requires
        from <= to <= s@.len(),
    ensures
        r@ == s@.subrange(from as int, to as int),
{
    let mut r: Vec<char> = Vec::new();
    let mut i = from;
    while i < to
        invariant
            from <= i <= to <= s@.len(),
            r@ == s@.subrange(from as int, i as int),
        decreases to - i,
    {
        r.push(s[i]);
        i += 1;
        assert(r@ =~= s@.subrange(from as int, i as int));
    }
    r
}

/// Appends `b` to `a`.
pub fn extend(a: &mut Vec<char>, b: &[char])
    ensures
        final(a)@ == old(a)@ + b@,
{
    let ghost a0 = a@;
    let mut i: usize = 0;
    while i < b.len()
        invariant
            i <= b@.len(),
            a@ == a0 + b@.take(i as int),
        decreases b@.len() - i,
    {
        a.push(b[i]);
        i += 1;
        assert(a@ =~= a0 + b@.take(i as int));
    }
    assert(b@.take(i as int) =~= b@);
}

/// Appends the characters of `t` to `a`.
pub fn extend_str(a: &mut Vec<char>, t: &str)
    ensures
        final(a)@ == old(a)@ + t@,
{
    let c = chars_of(t);
    extend(a, &c);
}

/// Characters equal.
pub fn seq_eq(a: &[char], b: &[char]) -> (r: bool)
    ensures
        r == (a@ == b@),
{
    if a.len() != b.len() {
        return false;
    }
    let mut i: usize = 0;
    while i < a.len()
        invariant
            a@.len() == b@.len(),
            i <= a@.len(),
            forall|j: int| 0 <= j < i ==> a@[j] == b@[j],
        decreases a@.len() - i,
    {
        if a[i] != b[i] {
            return false;
        }
        i += 1;
    }
    assert(a@ =~= b@);
    true
}

/// `p` occurs in `s` at `i`.
pub fn matches_at(s: &[char], p: &[char], i: usize) -> (r: bool)
    ensures
        r == occurs_at(s@, p@, i as int),
{
    if i > s.len() || p.len() > s.len() - i {
        return false;
    }
    let mut j: usize = 0;
    while j < p.len()
        invariant
            i + p@.len() <= s@.len(),
            s@.len() <= usize::MAX,
            j <= p@.len(),
            forall|k: int| 0 <= k < j ==> s@[i + k] == p@[k],
        decreases p@.len() - j,
    {
        if s[i + j] != p[j] {
            assert(s@.subrange(i as int, i + p@.len())[j as int] != p@[j as int]);
            return false;
        }
        j += 1;
    }
    assert(s@.subrange(i as int, i + p@.len()) =~= p@);
    true
}

/// `s.starts_with(p)`.
pub fn has_prefix(s: &[char], p: &[char]) -> (r: bool)
    ensures
        r == starts_with(s@, p@),
{
    let r = matches_at(s, p, 0);
    assert(s@.subrange(0, p@.len() as int) =~= s@.take(p@.len() as int));
    r
}

/// `s.ends_with(p)`.
pub fn has_suffix(s: &[char], p: &[char]) -> (r: bool)
    ensures
        r == ends_with(s@, p@),
{
    if p.len() > s.len() {
        return false;
    }
    let r = matches_at(s, p, s.len() - p.len());
    assert(s@.subrange(s@.len() - p@.len(), s@.len() as int) =~= s@.skip(s@.len() - p@.len()));
    r
}

/// Position of the first occurrence of `p` in `s` at or after `from`.
pub fn find_from(s: &[char], p: &[char], from: usize) -> (r: Option<usize>)
    ensures
        match r {
            Some(i) => from <= i && occurs_at(s@, p@, i as int) && forall|j: int|
                from <= j < i ==> !occurs_at(s@, p@, j),
            None => forall|j: int| from <= j ==> !occurs_at(s@, p@, j),
        },
{
    let mut i = from;
    while i <= s.len()
        invariant
            from <= i,
            forall|j: int| from <= j < i ==> !occurs_at(s@, p@, j),
        ensures
            forall|j: int| from <= j <= s@.len() ==> !occurs_at(s@, p@, j),
        decreases s@.len() + 1 - i,
    {
        if matches_at(s, p, i) {
            return Some(i);
        }
        if i == s.len() {
            break;
        }
        i += 1;
    }
    assert forall|j: int| from <= j implies !occurs_at(s@, p@, j) by {
        if j > s@.len() {
        }
    }
    None
}

/// Position of the first occurrence of `p` in `s` (`str::find`).
pub fn find(s: &[char], p: &[char]) -> (r: Option<usize>)
    ensures
        match r {
            Some(i) => first_occurrence(s@, p@) == Some(i as int) && occurs_at(s@, p@, i as int),
            None => first_occurrence(s@, p@) is None,
        },
        r is Some <==> contains(s@, p@),
{
    let r = find_from(s, p, 0);
    match r {
        Some(i) => {
            let ghost k = choose|k: int|
                occurs_at(s@, p@, k) && forall|j: int| 0 <= j < k ==> !occurs_at(s@, p@, j);
            assert(occurs_at(s@, p@, k));
            assert(k == i) by {
                if k < i {
                } else if k > i {
                    assert(!occurs_at(s@, p@, i as int));
                }
            }
        },
        None => {},
    }
    r
}

/// The position of the first occurrence of `p` in `s`, which leaves room for `p`.
pub fn position_of(s: &[char], p: &[char]) -> (r: Option<usize>)
    ensures
        match r {
            Some(i) => first_occurrence(s@, p@) == Some(i as int) && i + p@.len() <= s@.len(),
            None => first_occurrence(s@, p@) is None,
        },
{
    find(s, p)
}

/// `s.contains(p)`.
pub fn has_sub(s: &[char], p: &[char]) -> (r: bool)
    ensures
        r == contains(s@, p@),
{
    find(s, p).is_some()
}

/// `s.split(c)`: the pieces between occurrences of `c`.
pub fn split_on(s: &[char], c: char) -> (ps: Vec<Vec<char>>)
    ensures
        ps@.len() == split_pieces(s@, c).len(),
        forall|i: int| 0 <= i < ps@.len() ==> (#[trigger] ps@[i])@ == split_pieces(s@, c)[i],
{
    let mut out: Vec<Vec<char>> = Vec::new();
    let mut cur: Vec<char> = Vec::new();
    let mut i: usize = 0;
    while i < s.len()
        invariant
            i <= s@.len(),
            out@.len() + 1 == split_pieces(s@.take(i as int), c).len(),
            forall|j: int|
                0 <= j < out@.len() ==> (#[trigger] out@[j])@ == split_pieces(
                    s@.take(i as int),
                    c,
                )[j],
            cur@ == split_pieces(s@.take(i as int), c).last(),
        decreases s@.len() - i,
    {
        let ghost before = s@.take(i as int);
        proof {
            lemma_split_pieces_len(before, c);
        }
        let x = s[i];
        i += 1;
        assert(s@.take(i as int).drop_last() =~= before);
        if x == c {
            out.push(cur);
            cur = Vec::new();
        } else {
            cur.push(x);
        }
    }
    assert(s@.take(i as int) =~= s@);
    out.push(cur);
    out
}

/// The decimal digits of `n` (`n.to_string()`).
pub fn decimal_string(n: usize) -> (r: String)
    ensures
        r@ == decimal(n as nat),
{
    decimal_string_wide(n as u128)
}

/// The decimal digits of a wide number.
pub fn decimal_string_wide(n: u128) -> (r: String)
    ensures
        r@ == decimal(n as nat),
{
    let mut digits: Vec<char> = Vec::new();
    let mut m: u128 = n;
    // Digits are produced from the last one; `digits` holds them reversed.
    loop
        invariant_except_break
            m <= n,
            decimal(n as nat) == decimal(m as nat) + digits@.reverse(),
        ensures
            decimal(n as nat) == digits@.reverse(),
        decreases m,
    {
        let d = m % 10;
        let c: char = if d == 0 {
            '0'
        } else if d == 1 {
            '1'
        } else if d == 2 {
            '2'
        } else if d == 3 {
            '3'
        } else if d == 4 {
            '4'
        } else if d == 5 {
            '5'
        } else if d == 6 {
            '6'
        } else if d == 7 {
            '7'
        } else if d == 8 {
            '8'
        } else {
            '9'
        };
        assert(c == (('0' as u32) + d) as char);
        let ghost old_digits = digits@;
        digits.push(c);
        assert(digits@.reverse() =~= seq![c] + old_digits.reverse());
        if m < 10 {
            assert(decimal(m as nat) == seq![c]);
            assert(decimal(n as nat) =~= digits@.reverse());
            break;
        }
        assert(decimal(m as nat) == decimal((m / 10) as nat).push(c));
        m = m / 10;
    }
    let mut out: Vec<char> = Vec::new();
    let mut k: usize = digits.len();
    while k > 0
        invariant
            k <= digits@.len(),
            out@ == digits@.reverse().take((digits@.len() - k) as int),
        decreases k,
    {
        k -= 1;
        out.push(digits[k]);
        assert(out@ =~= digits@.reverse().take((digits@.len() - k) as int));
    }
    assert(out@ =~= digits@.reverse());
    string_of(&out)
}

/// The pieces concatenated.
pub fn concat_strs(ps: &[&str]) -> (r: String)
    ensures
        r@ == concat_views(ps@),
{
    let mut r = String::new();
    let mut i: usize = 0;
    while i < ps.len()
        invariant
            i <= ps@.len(),
            r@ == concat_views(ps@.take(i as int)),
        decreases ps@.len() - i,
    {
        assert(ps@.take(i + 1).drop_last() =~= ps@.take(i as int));
        push_str(&mut r, ps[i]);
        i += 1;
    }
    assert(ps@.take(i as int) =~= ps@);
    r
}

/// `a < b` for strings.
pub fn lex_less(a: &[char], b: &[char]) -> (r: bool)
    ensures
        r == lex_lt(a@, b@),
{
    let mut i: usize = 0;
    assert(a@.skip(0) =~= a@);
    assert(b@.skip(0) =~= b@);
    while i < a.len() && i < b.len()
        invariant
            i <= a@.len(),
            i <= b@.len(),
            lex_lt(a@, b@) == lex_lt(a@.skip(i as int), b@.skip(i as int)),
        decreases a@.len() - i,
    {
        if a[i] != b[i] {
            proof {
                assert(a@.skip(i as int)[0] == a@[i as int]);
                assert(b@.skip(i as int)[0] == b@[i as int]);
            }
            return (a[i] as u32) < (b[i] as u32);
        }
        proof {
            assert(a@.skip(i as int).drop_first() =~= a@.skip(i + 1));
            assert(b@.skip(i as int).drop_first() =~= b@.skip(i + 1));
        }
        i += 1;
    }
    i == a.len() && i < b.len()
}

/// Splits text into lines as `str::lines` does.
pub fn lines_of(s: &[char]) -> (ls: Vec<Vec<char>>)
    ensures
        ls@.len() == lines(s@).len(),
        forall|i: int| 0 <= i < ls@.len() ==> (#[trigger] ls@[i])@ == lines(s@)[i],
{
    let mut out: Vec<Vec<char>> = Vec::new();
    let mut cur: Vec<char> = Vec::new();
    let mut i: usize = 0;
    while i < s.len()
        invariant
            i <= s@.len(),
            out@.len() + 1 == nl_pieces(s@.take(i as int)).len(),
            forall|j: int|
                0 <= j < out@.len() ==> (#[trigger] out@[j])@ == strip_cr(
                    nl_pieces(s@.take(i as int))[j],
                ),
            cur@ == nl_pieces(s@.take(i as int)).last(),
        decreases s@.len() - i,
    {
        let ghost before = s@.take(i as int);
        let c = s[i];
        i += 1;
        assert(s@.take(i as int).drop_last() =~= before);
        if c == '\n' {
            if cur.len() > 0 && cur[cur.len() - 1] == '\r' {
                let k = cur.len() - 1;
                let t = slice_of(&cur, 0, k);
                assert(t@ =~= cur@.drop_last());
                out.push(t);
            } else {
                out.push(cur);
            }
            cur = Vec::new();
        } else {
            cur.push(c);
        }
    }
    assert(s@.take(i as int) =~= s@);
    let ghost p = nl_pieces(s@);
    if cur.len() > 0 {
        out.push(cur);
    }
    assert(out@.len() == lines(s@).len());
    out
}

/// The `line`-th line (`lines().nth(line).unwrap_or("")`).
pub fn line_at(s: &[char], line: usize) -> (l: Vec<char>)
    ensures
        l@ == nth_line(s@, line as int),
{
    let ls = lines_of(s);
    if line < ls.len() {
        let r = slice_of(&ls[line], 0, ls[line].len());
        assert(r@ =~= ls@[line as int]@);
        r
    } else {
        Vec::new()
    }
}

/// `parts.join(sep)`.
pub fn join_lines(parts: &Vec<Vec<char>>, sep: &[char]) -> (r: Vec<char>)
    ensures
        r@ == join(parts@.map_values(|v: Vec<char>| v@), sep@),
{
    let ghost ps = parts@.map_values(|v: Vec<char>| v@);
    let mut r: Vec<char> = Vec::new();
    let mut i: usize = 0;
    while i < parts.len()
        invariant
            i <= parts@.len(),
            ps == parts@.map_values(|v: Vec<char>| v@),
            r@ == join(ps.take(i as int), sep@),
        decreases parts@.len() - i,
    {
        proof {
            lemma_join_push(ps.take(i as int), sep@, ps[i as int]);
            assert(ps.take(i as int).push(ps[i as int]) =~= ps.take(i + 1));
        }
        if i > 0 {
            extend(&mut r, sep);
        }
        extend(&mut r, &parts[i]);
        i += 1;
    }
    assert(ps.take(i as int) =~= ps);
    r
}

} // verus!
