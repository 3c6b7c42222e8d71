//! Character-level building blocks shared by the rest of the library: conversion between
//! strings and character vectors, comparisons, trimming and whitespace collapsing.

use vstd::prelude::*;

verus! {

broadcast use vstd::string::group_string_axioms;

/// Unicode `White_Space`: the characters `char::is_whitespace` accepts.
pub open spec fn is_ws(c: char) -> bool {
    ||| ('\u{9}' <= c && c <= '\u{d}')
    ||| c == ' '
    ||| c == '\u{85}'
    ||| c == '\u{a0}'
    ||| c == '\u{1680}'
    ||| ('\u{2000}' <= c && c <= '\u{200a}')
    ||| c == '\u{2028}'
    ||| c == '\u{2029}'
    ||| c == '\u{202f}'
    ||| c == '\u{205f}'
    ||| c == '\u{3000}'
}

/// Unicode general category `Cc`: the characters `char::is_control` accepts.
pub open spec fn is_control(c: char) -> bool {
    c <= '\u{1f}' || ('\u{7f}' <= c && c <= '\u{9f}')
}

pub open spec fn is_ascii_upper(c: char) -> bool {
    'A' <= c && c <= 'Z'
}

pub open spec fn is_ascii_alnum(c: char) -> bool {
    ||| ('0' <= c && c <= '9')
    ||| ('a' <= c && c <= 'z')
    ||| is_ascii_upper(c)
}

/// `char::to_ascii_lowercase`.
pub open spec fn ascii_lower(c: char) -> char {
    if is_ascii_upper(c) {
        ((c as u32) + 32) as char
    } else {
        c
    }
}

/// `str::to_ascii_lowercase`, character by character.
pub open spec fn ascii_lower_seq(s: Seq<char>) -> Seq<char> {
    s.map_values(|c: char| ascii_lower(c))
}

/// Classes of characters that trimming removes or splitting cuts at.
#[derive(Clone, Copy, PartialEq, Eq, Structural, Debug)]
pub enum Class {
    /// Unicode whitespace.
    Space,
    /// NUL or whitespace.
    NulOrSpace,
    /// The double quote.
    Quote,
    /// The dash.
    Dash,
    /// The path separator `/`.
    Slash,
}

pub open spec fn in_class(t: Class, c: char) -> bool {
    match t {
        Class::Space => is_ws(c),
        Class::NulOrSpace => c == '\0' || is_ws(c),
        Class::Quote => c == '"',
        Class::Dash => c == '-',
        Class::Slash => c == '/',
    }
}

/// `s` with the leading characters of class `t` removed.
pub open spec fn trim_start_by(s: Seq<char>, t: Class) -> Seq<char>
    decreases s.len(),
{
    if s.len() > 0 && in_class(t, s[0]) {
        trim_start_by(s.drop_first(), t)
    } else {
        s
    }
}

/// `s` with the trailing characters of class `t` removed.
pub open spec fn trim_end_by(s: Seq<char>, t: Class) -> Seq<char>
    decreases s.len(),
{
    if s.len() > 0 && in_class(t, s.last()) {
        trim_end_by(s.drop_last(), t)
    } else {
        s
    }
}

/// `s` with characters of class `t` removed at both ends (`str::trim_matches`).
pub open spec fn trim_by(s: Seq<char>, t: Class) -> Seq<char> {
    trim_end_by(trim_start_by(s, t), t)
}

/// `str::trim`.
pub open spec fn trim(s: Seq<char>) -> Seq<char> {
    trim_by(s, Class::Space)
}

/// The maximal runs of characters outside class `t` in `s` (`str::split_whitespace` for
/// whitespace), defined on prefixes: a character outside the class extends the last piece
/// when it follows another one, else starts a new piece.
pub open spec fn pieces(s: Seq<char>, t: Class) -> Seq<Seq<char>>
    decreases s.len(),
{
    if s.len() == 0 {
        seq![]
    } else {
        let w = pieces(s.drop_last(), t);
        let c = s.last();
        if in_class(t, c) {
            w
        } else if s.len() > 1 && !in_class(t, s[s.len() - 2]) {
            w.update(w.len() - 1, w.last().push(c))
        } else {
            w.push(seq![c])
        }
    }
}

/// The whitespace-separated words of `s`.
pub open spec fn words(s: Seq<char>) -> Seq<Seq<char>> {
    pieces(s, Class::Space)
}

/// The pieces of `list` joined by `sep`.
pub open spec fn join(list: Seq<Seq<char>>, sep: Seq<char>) -> Seq<char>
    decreases list.len(),
{
    if list.len() == 0 {
        seq![]
    } else if list.len() == 1 {
        list[0]
    } else {
        join(list.drop_last(), sep) + sep + list.last()
    }
}

/// Whitespace runs collapsed to one space, none at either end:
/// `split_whitespace().collect::<Vec<_>>().join(" ")`.
pub open spec fn collapse_ws(s: Seq<char>) -> Seq<char> {
    join(pieces(s, Class::Space), seq![' '])
}

/// The non-empty pieces of `s` between separators of class `t`, joined by `sep`.
pub open spec fn rejoin(s: Seq<char>, t: Class, sep: char) -> Seq<char> {
    join(pieces(s, t), seq![sep])
}

/// Whether `p` is a prefix of `s`.
pub open spec fn has_prefix(s: Seq<char>, p: Seq<char>) -> bool {
    p.len() <= s.len() && s.take(p.len() as int) == p
}

/// Whether `p` is a suffix of `s`.
pub open spec fn has_suffix(s: Seq<char>, p: Seq<char>) -> bool {
    p.len() <= s.len() && s.skip(s.len() - p.len()) == p
}

/// Whether `c` occurs in `s`.
pub open spec fn has_char(s: Seq<char>, c: char) -> bool {
    exists|i: int| 0 <= i < s.len() && s[i] == c
}

/// `String::push`.
#[verifier::external_body]
fn string_push(s: &mut String, c: char)
    ensures
        final(s)@ == old(s)@.push(c),
{
    s.push(c);
}

/// The characters of a string slice, in order.
pub fn chars_of(s: &str) -> (v: Vec<char>)
    ensures
        v@ == s@,
{
    let mut v: Vec<char> = Vec::new();
    for c in it: s.chars()
        invariant
            it.seq() == s@,
            v@ == it.seq().take(it.index() as int),
    {
        v.push(c);
    }
    v
}

/// A string holding exactly the characters of `v`.
pub fn string_of(v: &Vec<char>) -> (s: String)
    ensures
        s@ == v@,
{
    let mut s = String::new();
    let mut i: usize = 0;
    while i < v.len()
        invariant
            i <= v.len(),
            s@ == v@.take(i as int),
        decreases v.len() - i,
    {
        string_push(&mut s, v[i]);
        i = i + 1;
        assert(v@.take(i as int) == v@.take(i - 1).push(v@[i - 1]));
    }
    assert(v@.take(v.len() as int) == v@);
    s
}

pub fn char_is_ws(c: char) -> (b: bool)
    ensures
        b == is_ws(c),
{
    ('\u{9}' <= c && c <= '\u{d}') || c == ' ' || c == '\u{85}' || c == '\u{a0}' || c == '\u{1680}'
        || ('\u{2000}' <= c && c <= '\u{200a}') || c == '\u{2028}' || c == '\u{2029}' || c
        == '\u{202f}' || c == '\u{205f}' || c == '\u{3000}'
}

pub fn char_is_control(c: char) -> (b: bool)
    ensures
        b == is_control(c),
{
    c <= '\u{1f}' || ('\u{7f}' <= c && c <= '\u{9f}')
}

pub fn char_is_ascii_alnum(c: char) -> (b: bool)
    ensures
        b == is_ascii_alnum(c),
{
    ('0' <= c && c <= '9') || ('a' <= c && c <= 'z') || ('A' <= c && c <= 'Z')
}

pub fn char_ascii_lower(c: char) -> (r: char)
    ensures
        r == ascii_lower(c),
{
    if 'A' <= c && c <= 'Z' {
        let b: u8 = c as u8;
        (b + 32) as char
    } else {
        c
    }
}

/// Characterwise ASCII lowercase copy.
pub fn lower_ascii(v: &Vec<char>) -> (r: Vec<char>)
    ensures
        r@ == ascii_lower_seq(v@),
{
    let mut r: Vec<char> = Vec::new();
    let mut i: usize = 0;
    while i < v.len()
        invariant
            i <= v.len(),
            r@ == ascii_lower_seq(v@.take(i as int)),
        decreases v.len() - i,
    {
        let c = char_ascii_lower(v[i]);
        r.push(c);
        i = i + 1;
        assert(ascii_lower_seq(v@.take(i as int)) =~= ascii_lower_seq(v@.take(i - 1)).push(
            ascii_lower(v@[i - 1]),
        ));
    }
    assert(v@.take(v.len() as int) == v@);
    r
}

/// Whether two character vectors are equal.
pub fn eq_chars(a: &Vec<char>, b: &Vec<char>) -> (r: bool)
    ensures
        r == (a@ == b@),
{
    if a.len() != b.len() {
        return false;
    }
    let mut i: usize = 0;
    while i < a.len()
        invariant
            a.len() == b.len(),
            i <= a.len(),
            forall|j: int| 0 <= j < i ==> a@[j] == b@[j],
        decreases a.len() - i,
    {
        if a[i] != b[i] {
            return false;
        }
        i = i + 1;
    }
    assert(a@ =~= b@);
    true
}

/// Whether the characters of `a` are those of the string `s`.
pub fn eq_str(a: &Vec<char>, s: &str) -> (r: bool)
    ensures
        r == (a@ == s@),
{
    let b = chars_of(s);
    eq_chars(a, &b)
}

/// Whether `p` is a prefix of `s`.
pub fn starts_with(s: &Vec<char>, p: &Vec<char>) -> (r: bool)
    ensures
        r == has_prefix(s@, p@),
{
    if p.len() > s.len() {
        return false;
    }
    let mut i: usize = 0;
    while i < p.len()
        invariant
            p.len() <= s.len(),
            i <= p.len(),
            forall|j: int| 0 <= j < i ==> s@[j] == p@[j],
        decreases p.len() - i,
    {
        if s[i] != p[i] {
            assert(s@.take(p.len() as int)[i as int] != p@[i as int]);
            return false;
        }
        i = i + 1;
    }
    assert(s@.take(p.len() as int) =~= p@);
    true
}

/// Whether `p` is a suffix of `s`.
pub fn ends_with(s: &Vec<char>, p: &Vec<char>) -> (r: bool)
    ensures
        r == has_suffix(s@, p@),
{
    if p.len() > s.len() {
        return false;
    }
    let off = s.len() - p.len();
    let mut i: usize = 0;
    while i < p.len()
        invariant
            p.len() <= s.len(),
            off == s.len() - p.len(),
            i <= p.len(),
            forall|j: int| 0 <= j < i ==> s@[off + j] == p@[j],
        decreases p.len() - i,
    {
        if s[off + i] != p[i] {
            assert(s@.skip(off as int)[i as int] != p@[i as int]);
            return false;
        }
        i = i + 1;
    }
    assert(s@.skip(off as int) =~= p@);
    true
}

/// Whether `c` occurs in `s`.
pub fn contains_char(s: &Vec<char>, c: char) -> (r: bool)
    ensures
        r == has_char(s@, c),
{
    let mut i: usize = 0;
    while i < s.len()
        invariant
            i <= s.len(),
            forall|j: int| 0 <= j < i ==> s@[j] != c,
        decreases s.len() - i,
    {
        if s[i] == c {
            return true;
        }
        i = i + 1;
    }
    false
}

/// A copy of `s[lo..hi]`.
pub fn slice_chars(s: &Vec<char>, lo: usize, hi: usize) -> (r: Vec<char>)
    requires
        lo <= hi <= s.len(),
    ensures
        r@ == s@.subrange(lo as int, hi as int),
{
    let mut r: Vec<char> = Vec::new();
    let mut i: usize = lo;
    while i < hi
        invariant
            lo <= i <= hi <= s.len(),
            r@ == s@.subrange(lo as int, i as int),
        decreases hi - i,
    {
        r.push(s[i]);
        i = i + 1;
        assert(r@ =~= s@.subrange(lo as int, i as int));
    }
    r
}

/// Appends every character of `s` to `out`.
pub fn push_chars(out: &mut Vec<char>, s: &Vec<char>)
    ensures
        final(out)@ == old(out)@ + s@,
{
    let mut i: usize = 0;
    let ghost start = out@;
    while i < s.len()
        invariant
            i <= s.len(),
            out@ == start + s@.take(i as int),
        decreases s.len() - i,
    {
        out.push(s[i]);
        i = i + 1;
        assert(out@ =~= start + s@.take(i as int));
    }
    assert(s@.take(s.len() as int) == s@);
}

/// Appends every character of the string `s` to `out`.
pub fn push_str(out: &mut Vec<char>, s: &str)
    ensures
        final(out)@ == old(out)@ + s@,
{
    let v = chars_of(s);
    push_chars(out, &v);
}

pub fn char_in_class(t: Class, c: char) -> (b: bool)
    ensures
        b == in_class(t, c),
{
    match t {
        Class::Space => char_is_ws(c),
        Class::NulOrSpace => c == '\0' || char_is_ws(c),
        Class::Quote => c == '"',
        Class::Dash => c == '-',
        Class::Slash => c == '/',
    }
}

proof fn lemma_trim_start_skip(s: Seq<char>, k: int, t: Class)
    requires
        0 <= k <= s.len(),
        forall|j: int| 0 <= j < k ==> in_class(t, s[j]),
    ensures
        trim_start_by(s, t) == trim_start_by(s.skip(k), t),
    decreases k,
{
    if k > 0 {
        assert(s.drop_first().skip(k - 1) =~= s.skip(k));
        lemma_trim_start_skip(s.drop_first(), k - 1, t);
    } else {
        assert(s.skip(0) =~= s);
    }
}

proof fn lemma_trim_end_take(s: Seq<char>, k: int, t: Class)
    requires
        0 <= k <= s.len(),
        forall|j: int| k <= j < s.len() ==> in_class(t, s[j]),
    ensures
        trim_end_by(s, t) == trim_end_by(s.take(k), t),
    decreases s.len() - k,
{
    if k < s.len() {
        assert(s.drop_last().take(k) =~= s.take(k));
        lemma_trim_end_take(s.drop_last(), k, t);
    } else {
        assert(s.take(k) =~= s);
    }
}

/// The leading characters of class `t` removed.
pub fn trim_start_chars(s: &Vec<char>, t: Class) -> (r: Vec<char>)
    ensures
        r@ == trim_start_by(s@, t),
{
    let mut lo: usize = 0;
    while lo < s.len() && char_in_class(t, s[lo])
        invariant
            lo <= s.len(),
            forall|j: int| 0 <= j < lo ==> in_class(t, s@[j]),
        decreases s.len() - lo,
    {
        lo = lo + 1;
    }
    proof {
        lemma_trim_start_skip(s@, lo as int, t);
        assert(s@.skip(lo as int) =~= s@.subrange(lo as int, s.len() as int));
    }
    slice_chars(s, lo, s.len())
}

/// Characters of class `t` removed at both ends.
pub fn trim_chars_by(s: &Vec<char>, t: Class) -> (r: Vec<char>)
    ensures
        r@ == trim_by(s@, t),
{
    let mut lo: usize = 0;
    while lo < s.len() && char_in_class(t, s[lo])
        invariant
            lo <= s.len(),
            forall|j: int| 0 <= j < lo ==> in_class(t, s@[j]),
        decreases s.len() - lo,
    {
        lo = lo + 1;
    }
    proof {
        lemma_trim_start_skip(s@, lo as int, t);
    }
    let mut hi: usize = s.len();
    while hi > lo && char_in_class(t, s[hi - 1])
        invariant
            lo <= hi <= s.len(),
            forall|j: int| hi <= j < s.len() ==> in_class(t, s@[j]),
        decreases hi,
    {
        hi = hi - 1;
    }
    proof {
        let u = s@.skip(lo as int);
        assert(trim_start_by(u, t) == u);
        lemma_trim_end_take(u, hi - lo, t);
        assert(u.take(hi - lo) =~= s@.subrange(lo as int, hi as int));
        let w = s@.subrange(lo as int, hi as int);
        if w.len() > 0 {
            assert(!in_class(t, w.last()));
        }
        assert(trim_end_by(w, t) == w);
    }
    slice_chars(s, lo, hi)
}

/// Leading and trailing whitespace removed (`str::trim`).
pub fn trim_chars(s: &Vec<char>) -> (r: Vec<char>)
    ensures
        r@ == trim(s@),
{
    trim_chars_by(s, Class::Space)
}

pub proof fn lemma_join_push(list: Seq<Seq<char>>, x: Seq<char>, sep: Seq<char>)
    ensures
        join(list.push(x), sep) == if list.len() == 0 {
            x
        } else {
            join(list, sep) + sep + x
        },
{
    assert(list.push(x).drop_last() =~= list);
}

pub proof fn lemma_join_extend_last(list: Seq<Seq<char>>, c: char, sep: Seq<char>)
    requires
        list.len() > 0,
    ensures
        join(list.update(list.len() - 1, list.last().push(c)), sep) == join(list, sep).push(c),
{
    let l2 = list.update(list.len() - 1, list.last().push(c));
    assert(l2.drop_last() =~= list.drop_last());
    if list.len() == 1 {
    } else {
        assert((join(list.drop_last(), sep) + sep + list.last()).push(c) =~= join(list.drop_last(), sep)
            + sep + list.last().push(c));
    }
}

pub proof fn lemma_pieces_empty_iff(s: Seq<char>, t: Class)
    ensures
        (pieces(s, t).len() == 0) == (forall|j: int| 0 <= j < s.len() ==> in_class(t, s[j])),
        s.len() > 0 && !in_class(t, s.last()) ==> pieces(s, t).len() > 0,
    decreases s.len(),
{
    if s.len() > 0 {
        lemma_pieces_empty_iff(s.drop_last(), t);
        if pieces(s, t).len() == 0 {
            assert forall|j: int| 0 <= j < s.len() implies in_class(t, s[j]) by {
                if j < s.len() - 1 {
                    assert(s.drop_last()[j] == s[j]);
                }
            }
        }
        if forall|j: int| 0 <= j < s.len() ==> in_class(t, s[j]) {
            assert forall|j: int| 0 <= j < s.drop_last().len() implies in_class(t, s.drop_last()[j]) by {
                assert(s.drop_last()[j] == s[j]);
            }
        }
    }
}

/// The non-empty pieces of `s` between characters of class `t`, joined by `sep`.
pub fn rejoin_pieces(s: &Vec<char>, t: Class, sep: char) -> (r: Vec<char>)
    ensures
        r@ == rejoin(s@, t, sep),
{
    let mut out: Vec<char> = Vec::new();
    let mut started = false;
    let mut i: usize = 0;
    while i < s.len()
        invariant
            i <= s.len(),
            out@ == rejoin(s@.take(i as int), t, sep),
            started == (pieces(s@.take(i as int), t).len() > 0),
        decreases s.len() - i,
    {
        let c = s[i];
        let ghost pre = s@.take(i as int);
        let ghost cur = s@.take(i + 1);
        proof {
            assert(cur.drop_last() =~= pre);
            assert(cur.last() == c);
            lemma_pieces_empty_iff(pre, t);
            if i > 0 {
                assert(cur[cur.len() - 2] == s@[i - 1]);
                assert(pre.last() == s@[i - 1]);
            }
        }
        if char_in_class(t, c) {
            assert(pieces(cur, t) == pieces(pre, t));
        } else if i > 0 && !char_in_class(t, s[i - 1]) {
            proof {
                lemma_join_extend_last(pieces(pre, t), c, seq![sep]);
                assert(pieces(cur, t) == pieces(pre, t).update(
                    pieces(pre, t).len() - 1,
                    pieces(pre, t).last().push(c),
                ));
            }
            out.push(c);
        } else {
            proof {
                lemma_join_push(pieces(pre, t), seq![c], seq![sep]);
                assert(pieces(cur, t) == pieces(pre, t).push(seq![c]));
            }
            if started {
                out.push(sep);
            }
            out.push(c);
            started = true;
            proof {
                if pieces(pre, t).len() == 0 {
                    assert(out@ =~= seq![c]);
                } else {
                    assert(out@ =~= join(pieces(pre, t), seq![sep]) + seq![sep] + seq![c]);
                }
            }
        }
        i = i + 1;
    }
    assert(s@.take(s.len() as int) == s@);
    out
}

/// Trimming the start keeps a suffix of `s` that does not start with the class.
pub proof fn lemma_trim_start_suffix(s: Seq<char>, t: Class)
    ensures
        trim_start_by(s, t).len() <= s.len(),
        trim_start_by(s, t) == s.skip(s.len() - trim_start_by(s, t).len()),
        trim_start_by(s, t).len() > 0 ==> !in_class(t, trim_start_by(s, t)[0]),
    decreases s.len(),
{
    if s.len() > 0 && in_class(t, s[0]) {
        lemma_trim_start_suffix(s.drop_first(), t);
        assert(s.drop_first().skip(s.drop_first().len() - trim_start_by(s, t).len()) =~= s.skip(
            s.len() - trim_start_by(s, t).len(),
        ));
    } else {
        assert(s.skip(0) =~= s);
    }
}

/// Trimming the end keeps a prefix of `s` that does not end with the class.
pub proof fn lemma_trim_end_prefix(s: Seq<char>, t: Class)
    ensures
        trim_end_by(s, t).len() <= s.len(),
        trim_end_by(s, t) == s.take(trim_end_by(s, t).len() as int),
        trim_end_by(s, t).len() > 0 ==> !in_class(t, trim_end_by(s, t).last()),
    decreases s.len(),
{
    if s.len() > 0 && in_class(t, s.last()) {
        lemma_trim_end_prefix(s.drop_last(), t);
        assert(s.drop_last().take(trim_end_by(s, t).len() as int) =~= s.take(trim_end_by(s, t).len() as int));
    } else {
        assert(s.take(s.len() as int) =~= s);
    }
}

/// What `trim_by` keeps is a run of `s` that neither starts nor ends with the class.
pub proof fn lemma_trim_by_shape(s: Seq<char>, t: Class)
    ensures
        trim_by(s, t).len() <= trim_start_by(s, t).len() <= s.len(),
        trim_by(s, t) == s.subrange(
            s.len() - trim_start_by(s, t).len(),
            s.len() - trim_start_by(s, t).len() + trim_by(s, t).len(),
        ),
        trim_by(s, t).len() > 0 ==> !in_class(t, trim_by(s, t)[0]) && !in_class(t, trim_by(s, t).last()),
{
    let u = trim_start_by(s, t);
    lemma_trim_start_suffix(s, t);
    lemma_trim_end_prefix(u, t);
    let v = trim_end_by(u, t);
    assert(v =~= s.subrange(s.len() - u.len(), s.len() - u.len() + v.len()));
    if v.len() > 0 {
        assert(v[0] == u[0]);
    }
}

/// The non-empty pieces of `s` between characters of class `t`, in order.
pub fn split_pieces(s: &Vec<char>, t: Class) -> (r: Vec<Vec<char>>)
    ensures
        r@.map_values(|w: Vec<char>| w@) == pieces(s@, t),
{
    let mut out: Vec<Vec<char>> = Vec::new();
    let mut i: usize = 0;
    while i < s.len()
        invariant
            i <= s.len(),
            out@.map_values(|w: Vec<char>| w@) == pieces(s@.take(i as int), t),
        decreases s.len() - i,
    {
        let c = s[i];
        let ghost pre = s@.take(i as int);
        let ghost cur = s@.take(i + 1);
        let ghost before = out@;
        proof {
            assert(cur.drop_last() =~= pre);
            assert(cur.last() == c);
            lemma_pieces_empty_iff(pre, t);
            if i > 0 {
                assert(cur[cur.len() - 2] == s@[i - 1]);
                assert(pre.last() == s@[i - 1]);
            }
        }
        if char_in_class(t, c) {
            assert(pieces(cur, t) == pieces(pre, t));
        } else if i > 0 && !char_in_class(t, s[i - 1]) {
            assert(pieces(cur, t) == pieces(pre, t).update(pieces(pre, t).len() - 1, pieces(pre, t).last().push(c)));
            let mut last = out.pop().unwrap();
            last.push(c);
            out.push(last);
            assert(out@.map_values(|w: Vec<char>| w@) =~= pieces(cur, t));
        } else {
            assert(pieces(cur, t) == pieces(pre, t).push(seq![c]));
            let mut w: Vec<char> = Vec::new();
            w.push(c);
            out.push(w);
            assert(out@.map_values(|w: Vec<char>| w@) =~= pieces(cur, t));
        }
        i = i + 1;
    }
    assert(s@.take(s.len() as int) == s@);
    out
}

/// Whitespace runs collapsed to single spaces, none at either end.
pub fn collapse_whitespace(s: &Vec<char>) -> (r: Vec<char>)
    ensures
        r@ == collapse_ws(s@),
{
    rejoin_pieces(s, Class::Space, ' ')
}


/// What `str::to_lowercase` gives for `s` (Unicode lowercase mapping).
pub uninterp spec fn str_lowercase(s: Seq<char>) -> Seq<char>;

/// What `str::to_uppercase` gives for `s` (Unicode uppercase mapping).
pub uninterp spec fn str_uppercase(s: Seq<char>) -> Seq<char>;

/// `str::to_lowercase`; the mapping is Unicode's and is named, not stated, here.
#[verifier::external_body]
pub(crate) fn to_lowercase(s: &str) -> (r: String)
    ensures
        r@ == str_lowercase(s@),
{
    s.to_lowercase()
}

/// `str::to_uppercase`; the mapping is Unicode's and is named, not stated, here.
#[verifier::external_body]
pub(crate) fn to_uppercase(s: &str) -> (r: String)
    ensures
        r@ == str_uppercase(s@),
{
    s.to_uppercase()
}

pub open spec fn is_digit(c: char) -> bool {
    '0' <= c && c <= '9'
}

/// The decimal value of a string of digits.
pub open spec fn digits_value(s: Seq<char>) -> nat
    decreases s.len(),
{
    if s.len() == 0 {
        0
    } else {
        digits_value(s.drop_last()) * 10 + (s.last() as nat - '0' as nat) as nat
    }
}

/// `usize::from_str`: an optional `+`, then at least one decimal digit, the value fitting.
pub open spec fn parse_usize_spec(s: Seq<char>) -> Option<usize> {
    let d = unsigned_digits(s);
    if d.len() > 0 && all_digits(d) && digits_value(d) <= usize::MAX {
        Some(digits_value(d) as usize)
    } else {
        None
    }
}

/// `s` without one leading `+`.
pub open spec fn unsigned_digits(s: Seq<char>) -> Seq<char> {
    if s.len() > 0 && s[0] == '+' {
        s.drop_first()
    } else {
        s
    }
}

pub open spec fn all_digits(d: Seq<char>) -> bool {
    forall|i: int| 0 <= i < d.len() ==> is_digit(#[trigger] d[i])
}

/// The decimal digits of `n`, without leading zeros.
pub open spec fn decimal(n: nat) -> Seq<char>
    decreases n,
{
    if n < 10 {
        seq![(n + 48) as char]
    } else {
        decimal(n / 10).push(((n % 10) + 48) as char)
    }
}

/// `s` padded on the left with zeros to at least `w` characters (`format!("{:0w$}", ..)` of a
/// number written `s`).
pub open spec fn zero_pad(s: Seq<char>, w: nat) -> Seq<char> {
    if s.len() < w {
        Seq::new((w - s.len()) as nat, |i: int| '0') + s
    } else {
        s
    }
}

/// Parses a decimal `usize` as `str::parse::<usize>` does.
pub fn parse_usize(s: &Vec<char>) -> (r: Option<usize>)
    ensures
        r == parse_usize_spec(s@),
{
    let start: usize = if s.len() > 0 && s[0] == '+' {
        1
    } else {
        0
    };
    let ghost d = unsigned_digits(s@);
    assert(d =~= s@.skip(start as int));
    if start >= s.len() {
        return None;
    }
    let mut v: usize = 0;
    let mut i: usize = start;
    while i < s.len()
        invariant
            start <= i <= s.len(),
            d == unsigned_digits(s@),
            d =~= s@.skip(start as int),
            forall|j: int| 0 <= j < i - start ==> is_digit(#[trigger] d[j]),
            v as nat == digits_value(d.take(i - start)),
        decreases s.len() - i,
    {
        let c = s[i];
        assert(d[i - start] == c);
        assert(d.take(i - start + 1).drop_last() =~= d.take(i - start));
        if !('0' <= c && c <= '9') {
            assert(!is_digit(d[i - start]));
            assert(!all_digits(d));
            return None;
        }
        let digit: usize = (c as u32 - 48) as usize;
        if v > (usize::MAX - digit) / 10 {
            proof {
                assert(v * 10 + digit > usize::MAX) by (nonlinear_arith)
                    requires
                        v > (usize::MAX - digit) / 10,
                        digit <= 9,
                ;
                if all_digits(d) {
                    lemma_digits_value_prefix_le(d, i - start + 1);
                    assert(digits_value(d.take(i - start + 1)) == v * 10 + digit);
                    assert(digits_value(d) > usize::MAX);
                }
            }
            return None;
        }
        v = v * 10 + digit;
        i = i + 1;
    }
    assert(d.take(i - start) =~= d);
    Some(v)
}

proof fn lemma_digits_value_prefix_le(d: Seq<char>, k: int)
    requires
        0 <= k <= d.len(),
        forall|j: int| 0 <= j < d.len() ==> is_digit(#[trigger] d[j]),
    ensures
        digits_value(d.take(k)) <= digits_value(d),
    decreases d.len() - k,
{
    if k < d.len() {
        lemma_digits_value_prefix_le(d, k + 1);
        assert(d.take(k + 1).drop_last() =~= d.take(k));
    } else {
        assert(d.take(k) =~= d);
    }
}

/// The decimal digits of `n`.
pub fn decimal_of(n: u64) -> (r: Vec<char>)
    ensures
        r@ == decimal(n as nat),
    decreases n,
{
    if n < 10 {
        let mut v: Vec<char> = Vec::new();
        v.push(((n as u8) + 48) as char);
        v
    } else {
        let mut v = decimal_of(n / 10);
        v.push((((n % 10) as u8) + 48) as char);
        v
    }
}

/// `s` padded on the left with zeros to at least `w` characters.
pub fn zero_pad_chars(s: &Vec<char>, w: usize) -> (r: Vec<char>)
    ensures
        r@ == zero_pad(s@, w as nat),
{
    let mut r: Vec<char> = Vec::new();
    if s.len() < w {
        let n = w - s.len();
        let mut k: usize = 0;
        while k < n
            invariant
                k <= n,
                r@ == Seq::new(k as nat, |i: int| '0'),
            decreases n - k,
        {
            r.push('0');
            k = k + 1;
            assert(r@ =~= Seq::new(k as nat, |i: int| '0'));
        }
    }
    push_chars(&mut r, s);
    assert(s@.len() >= w ==> r@ =~= s@);
    r
}

/// How many bytes `c` takes in UTF-8 (`char::len_utf8`).
pub open spec fn utf8_width(c: char) -> nat {
    if (c as u32) <= 0x7f {
        1
    } else if (c as u32) <= 0x7ff {
        2
    } else if (c as u32) <= 0xffff {
        3
    } else {
        4
    }
}

/// How many bytes `s` takes in UTF-8.
pub open spec fn byte_len(s: Seq<char>) -> nat
    decreases s.len(),
{
    if s.len() == 0 {
        0
    } else {
        utf8_width(s[0]) + byte_len(s.drop_first())
    }
}

/// The UTF-8 length of two texts put together is the sum of their lengths.
pub proof fn lemma_byte_len_concat(a: Seq<char>, b: Seq<char>)
    ensures
        byte_len(a + b) == byte_len(a) + byte_len(b),
    decreases a.len(),
{
    if a.len() > 0 {
        assert((a + b).drop_first() =~= a.drop_first() + b);
        lemma_byte_len_concat(a.drop_first(), b);
    } else {
        assert(a + b =~= b);
    }
}

/// `byte_len` is the length of vstd's UTF-8 encoding.
pub proof fn lemma_byte_len_encoding(s: Seq<char>)
    ensures
        vstd::utf8::encode_utf8(s).len() == byte_len(s),
    decreases s.len(),
{
    if s.len() > 0 {
        let u = s[0] as u32;
        vstd::utf8::char_is_scalar(s[0]);
        assert(vstd::utf8::encode_scalar(u).len() == utf8_width(s[0]));
        lemma_byte_len_encoding(s.drop_first());
    }
}

/// The byte offset at which the character at position `i` of `s` starts.
pub open spec fn byte_pos(s: Seq<char>, i: int) -> nat {
    byte_len(s.take(i))
}

fn utf8_width_of(c: char) -> (r: usize)
    ensures
        r == utf8_width(c),
{
    let u = c as u32;
    if u <= 0x7f {
        1
    } else if u <= 0x7ff {
        2
    } else if u <= 0xffff {
        3
    } else {
        4
    }
}

/// The byte length of a string (`str::len`).
pub fn byte_len_of(s: &str) -> (r: usize)
    ensures
        r == byte_len(s@),
{
    let b = s.as_bytes();
    proof {
        lemma_byte_len_encoding(s@);
    }
    b.len()
}

/// The byte offset of position `i` in the characters `s` of a text `total` bytes long.
pub fn byte_pos_of(s: &Vec<char>, i: usize, total: usize) -> (r: usize)
    requires
        i <= s.len(),
        byte_len(s@) == total,
    ensures
        r == byte_pos(s@, i as int),
{
    let mut acc: usize = 0;
    let mut k: usize = 0;
    proof {
        lemma_byte_len_concat(s@.take(0), s@.skip(0));
        assert(s@.take(0) + s@.skip(0) =~= s@);
    }
    while k < i
        invariant
            k <= i <= s.len(),
            byte_len(s@) == total,
            acc == byte_len(s@.take(k as int)),
            acc + byte_len(s@.skip(k as int)) == total,
        decreases i - k,
    {
        let w = utf8_width_of(s[k]);
        proof {
            lemma_byte_len_concat(s@.take(k as int), seq![s@[k as int]]);
            assert(s@.take(k as int) + seq![s@[k as int]] =~= s@.take(k + 1));
            assert(s@.skip(k as int).drop_first() =~= s@.skip(k + 1));
            assert(byte_len(seq![s@[k as int]]) == utf8_width(s@[k as int])) by {
                assert(seq![s@[k as int]].drop_first() =~= Seq::<char>::empty());
                reveal_with_fuel(byte_len, 2);
            }
        }
        acc = acc + w;
        k = k + 1;
    }
    acc
}

/// Each of the pieces is non-empty and holds no character of the class.
pub open spec fn clean_pieces(w: Seq<Seq<char>>, t: Class) -> bool {
    forall|k: int| 0 <= k < w.len() ==> (#[trigger] w[k]).len() > 0 && forall|m: int| 0 <= m < w[k].len() ==> !in_class(t, w[k][m])
}

/// The pieces of any text are non-empty and hold no separator.
pub proof fn lemma_pieces_clean(s: Seq<char>, t: Class)
    ensures
        clean_pieces(pieces(s, t), t),
        s.len() > 0 && !in_class(t, s.last()) ==> pieces(s, t).len() > 0,
    decreases s.len(),
{
    if s.len() > 0 {
        let w = pieces(s.drop_last(), t);
        lemma_pieces_clean(s.drop_last(), t);
        let c = s.last();
        if in_class(t, c) {
        } else if s.len() > 1 && !in_class(t, s[s.len() - 2]) {
            assert(s.drop_last().last() == s[s.len() - 2]);
            let r = w.update(w.len() - 1, w.last().push(c));
            assert forall|k: int| 0 <= k < r.len() implies (#[trigger] r[k]).len() > 0 && forall|m: int|
                0 <= m < r[k].len() ==> !in_class(t, r[k][m]) by {
                if k == w.len() - 1 {
                    assert forall|m: int| 0 <= m < r[k].len() implies !in_class(t, r[k][m]) by {
                        if m < w.last().len() {
                            assert(r[k][m] == w[k][m]);
                        }
                    }
                }
            }
        } else {
            let r = w.push(seq![c]);
            assert forall|k: int| 0 <= k < r.len() implies (#[trigger] r[k]).len() > 0 && forall|m: int|
                0 <= m < r[k].len() ==> !in_class(t, r[k][m]) by {
                if k < w.len() {
                    assert(r[k] == w[k]);
                }
            }
        }
    }
}

pub proof fn lemma_pieces_word(a: Seq<char>, w: Seq<char>, t: Class)
    requires
        w.len() > 0,
        forall|m: int| 0 <= m < w.len() ==> !in_class(t, #[trigger] w[m]),
        a.len() == 0 || in_class(t, a.last()),
    ensures
        pieces(a + w, t) == pieces(a, t).push(w),
    decreases w.len(),
{
    let s = a + w;
    assert(s.drop_last() =~= a + w.drop_last());
    assert(s.last() == w.last());
    if w.len() == 1 {
        assert(a + w.drop_last() =~= a);
        if s.len() > 1 {
            assert(s[s.len() - 2] == a.last());
        }
        assert(seq![w.last()] =~= w);
    } else {
        lemma_pieces_word(a, w.drop_last(), t);
        assert(s[s.len() - 2] == w[w.len() - 2]);
        assert(w.drop_last().push(w.last()) =~= w);
    }
}

/// Splitting pieces joined by a separator of the class gives back the pieces.
pub proof fn lemma_pieces_join(w: Seq<Seq<char>>, t: Class, sep: char)
    requires
        clean_pieces(w, t),
        in_class(t, sep),
    ensures
        pieces(join(w, seq![sep]), t) == w,
    decreases w.len(),
{
    if w.len() == 0 {
    } else if w.len() == 1 {
        assert(seq![] + w[0] =~= w[0]);
        lemma_pieces_word(seq![], w[0], t);
        assert(seq![w[0]] =~= w);
    } else {
        let d = w.drop_last();
        assert(clean_pieces(d, t)) by {
            assert forall|k: int| 0 <= k < d.len() implies (#[trigger] d[k]).len() > 0 && forall|m: int|
                0 <= m < d[k].len() ==> !in_class(t, d[k][m]) by {
                assert(d[k] == w[k]);
            }
        }
        lemma_pieces_join(d, t, sep);
        let a = join(d, seq![sep]) + seq![sep];
        assert(a.last() == sep);
        assert(w[w.len() - 1] == w.last());
        lemma_pieces_word(a, w.last(), t);
        assert(a.drop_last() =~= join(d, seq![sep]));
        assert(pieces(a, t) == pieces(join(d, seq![sep]), t));
        assert(d.push(w.last()) =~= w);
    }
}

/// Rejoining a text already rejoined changes nothing.
pub proof fn lemma_rejoin_idempotent(s: Seq<char>, t: Class, sep: char)
    requires
        in_class(t, sep),
    ensures
        rejoin(rejoin(s, t, sep), t, sep) == rejoin(s, t, sep),
{
    lemma_pieces_clean(s, t);
    lemma_pieces_join(pieces(s, t), t, sep);
}

/// Clean pieces joined by a separator start with the first piece's first character and end
/// with the last piece's last character.
pub proof fn lemma_join_ends(w: Seq<Seq<char>>, t: Class, sep: char)
    requires
        clean_pieces(w, t),
    ensures
        w.len() > 0 ==> join(w, seq![sep]).len() > 0 && join(w, seq![sep])[0] == w[0][0] && join(w, seq![sep]).last()
            == w.last().last(),
        w.len() == 0 ==> join(w, seq![sep]).len() == 0,
    decreases w.len(),
{
    if w.len() > 1 {
        let d = w.drop_last();
        assert(clean_pieces(d, t)) by {
            assert forall|k: int| 0 <= k < d.len() implies (#[trigger] d[k]).len() > 0 && forall|m: int|
                0 <= m < d[k].len() ==> !in_class(t, d[k][m]) by {
                assert(d[k] == w[k]);
            }
        }
        lemma_join_ends(d, t, sep);
        assert(d[0] == w[0]);
        assert(w[w.len() - 1] == w.last());
        assert(w.last().len() > 0);
    } else if w.len() == 1 {
        assert(w[0].len() > 0);
    }
}
} // verus!
