//! Character-sequence helpers shared by the parsers, analyzers and
//! reporters: conversion between strings and character vectors, line
//! splitting, trimming, searching and decimal formatting.

use vstd::prelude::*;

verus! {

/// The Unicode `White_Space` property (PropList.txt), which
/// `char::is_whitespace` decides: tab through carriage return, space, next
/// line, no-break space, ogham space mark, the spaces from en quad to hair
/// space, line and paragraph separators, narrow no-break space, medium
/// mathematical space and ideographic space.
pub open spec fn unicode_whitespace(c: char) -> bool {
    let n = c as int;
    ||| 0x9 <= n <= 0xD
    ||| n == 0x20
    ||| n == 0x85
    ||| n == 0xA0
    ||| n == 0x1680
    ||| 0x2000 <= n <= 0x200A
    ||| n == 0x2028
    ||| n == 0x2029
    ||| n == 0x202F
    ||| n == 0x205F
    ||| n == 0x3000
}

/// Unicode alphabetic-or-numeric, as `char::is_alphanumeric` decides it.
pub uninterp spec fn unicode_alphanumeric(c: char) -> bool;

/// Unicode `Alphabetic`, as `char::is_alphabetic` decides it.
pub uninterp spec fn unicode_alphabetic(c: char) -> bool;

/// `char::is_whitespace`: whether `c` has the Unicode `White_Space` property.
#[verifier::external_body]
pub(crate) fn is_whitespace(c: char) -> (b: bool)
    ensures
        b == unicode_whitespace(c),
{
    c.is_whitespace()
}

/// `char::is_alphanumeric`: Unicode alphabetic or numeric.
#[verifier::external_body]
pub(crate) fn is_alphanumeric(c: char) -> (b: bool)
    ensures
        b == unicode_alphanumeric(c),
{
    c.is_alphanumeric()
}

/// `char::is_alphabetic`: the Unicode `Alphabetic` property.
#[verifier::external_body]
pub(crate) fn is_alphabetic(c: char) -> (b: bool)
    ensures
        b == unicode_alphabetic(c),
{
    c.is_alphabetic()
}

/// What `char::to_lowercase` yields for `c`.
pub uninterp spec fn unicode_lowercase(c: char) -> Seq<char>;

/// Calls `char::to_lowercase`, collecting the characters it yields.
#[verifier::external_body]
pub(crate) fn to_lowercase_chars(c: char) -> (r: Vec<char>)
    ensures
        r@ == unicode_lowercase(c),
{
    c.to_lowercase().collect()
}

/// `String: FromIterator<char>`: the string made of exactly these characters.
#[verifier::external_body]
pub(crate) fn string_of(v: &[char]) -> (s: String)
    ensures
        s@ == v@,
{
    v.iter().collect()
}

/// `String::push`: appends one character.
#[verifier::external_body]
pub(crate) fn push_char(s: &mut String, c: char)
    ensures
        final(s)@ == old(s)@.push(c),
{
    s.push(c)
}

/// Whether two texts hold the same characters.
pub fn str_eq(a: &str, b: &str) -> (r: bool)
    ensures
        r == (a@ == b@),
{
    let va = chars_of(a);
    let vb = chars_of(b);
    if va.len() != vb.len() {
        return false;
    }
    for k in 0..va.len()
        invariant
            va@ == a@,
            vb@ == b@,
            va.len() == vb.len(),
            forall|j: int| 0 <= j < k ==> va@[j] == vb@[j],
    {
        if va[k] != vb[k] {
            return false;
        }
    }
    assert(va@ =~= vb@);
    true
}

/// The characters of `s`, in order.
pub fn chars_of(s: &str) -> (v: Vec<char>)
    ensures
        v@ == s@,
{
    let mut v: Vec<char> = Vec::new();
    for c in it: s.chars()
        invariant
            v@ == it.seq().take(it.index() as int),
    {
        v.push(c);
    }
    proof {
        broadcast use vstd::string::group_string_axioms;
    }
    v
}

/// Appends `t` to `s`.
pub fn push_str(s: &mut String, t: &str)
    ensures
        final(s)@ == old(s)@ + t@,
{
    s.append(t);
}

/// Appends the characters `t` to `s`.
pub fn push_chars(s: &mut String, t: &[char])
    ensures
        final(s)@ == old(s)@ + t@,
{
    let piece = string_of(t);
    s.append(piece.as_str());
}

// ---------------------------------------------------------------------------
// ASCII classes (the few-line definitions of the std `is_ascii_*` methods)
// ---------------------------------------------------------------------------

pub open spec fn ascii_digit(c: char) -> bool {
    '0' <= c && c <= '9'
}

pub open spec fn ascii_alpha(c: char) -> bool {
    ('a' <= c && c <= 'z') || ('A' <= c && c <= 'Z')
}

pub open spec fn ascii_alnum(c: char) -> bool {
    ascii_digit(c) || ascii_alpha(c)
}

pub open spec fn ascii_hexdigit(c: char) -> bool {
    ascii_digit(c) || ('a' <= c && c <= 'f') || ('A' <= c && c <= 'F')
}

pub open spec fn ascii_lower(c: char) -> char {
    if 'A' <= c && c <= 'Z' {
        ((c as u32) + 32) as char
    } else {
        c
    }
}

pub fn is_ascii_digit(c: char) -> (b: bool)
    ensures
        b == ascii_digit(c),
{
    '0' <= c && c <= '9'
}

pub fn is_ascii_alpha(c: char) -> (b: bool)
    ensures
        b == ascii_alpha(c),
{
    ('a' <= c && c <= 'z') || ('A' <= c && c <= 'Z')
}

pub fn is_ascii_alnum(c: char) -> (b: bool)
    ensures
        b == ascii_alnum(c),
{
    is_ascii_digit(c) || is_ascii_alpha(c)
}

pub fn is_ascii_hexdigit(c: char) -> (b: bool)
    ensures
        b == ascii_hexdigit(c),
{
    is_ascii_digit(c) || ('a' <= c && c <= 'f') || ('A' <= c && c <= 'F')
}

pub fn to_ascii_lower(c: char) -> (r: char)
    ensures
        r == ascii_lower(c),
{
    if 'A' <= c && c <= 'Z' {
        let u: u32 = (c as u32) + 32;
        assert(0x61 <= u <= 0x7a);
        char_from_ascii(u)
    } else {
        c
    }
}

/// The character whose code is `u`, for a code in the ASCII range.
fn char_from_ascii(u: u32) -> (c: char)
    requires
        u < 128,
    ensures
        c == u as char,
{
    let b: u8 = u as u8;
    b as char
}

pub open spec fn lower_seq(s: Seq<char>) -> Seq<char> {
    s.map_values(|c: char| ascii_lower(c))
}

/// ASCII lower-casing of every character, as `str::to_ascii_lowercase`.
pub fn lower_chars(s: &[char]) -> (r: Vec<char>)
    ensures
        r@ == lower_seq(s@),
{
    let mut r: Vec<char> = Vec::new();
    for i in 0..s.len()
        invariant
            r@ == lower_seq(s@.take(i as int)),
    {
        r.push(to_ascii_lower(s[i]));
        assert(lower_seq(s@.take(i + 1)) == lower_seq(s@.take(i as int)).push(ascii_lower(s@[i as int])));
    }
    assert(s@.take(s@.len() as int) == s@);
    r
}

// ---------------------------------------------------------------------------
// Prefixes, suffixes and searching
// ---------------------------------------------------------------------------

pub open spec fn has_prefix(s: Seq<char>, p: Seq<char>) -> bool {
    p.len() <= s.len() && s.take(p.len() as int) == p
}

pub open spec fn has_suffix(s: Seq<char>, p: Seq<char>) -> bool {
    p.len() <= s.len() && s.skip(s.len() - p.len()) == p
}

/// `t` occurs in `s` starting at index `i`.
pub open spec fn occurs_at(s: Seq<char>, t: Seq<char>, i: int) -> bool {
    0 <= i && i + t.len() <= s.len() && s.subrange(i, i + t.len()) == t
}

pub open spec fn contains_seq(s: Seq<char>, t: Seq<char>) -> bool {
    exists|i: int| occurs_at(s, t, i)
}

/// The index of the first occurrence of `t` in `s`.
pub open spec fn first_occurrence(s: Seq<char>, t: Seq<char>) -> Option<int> {
    if contains_seq(s, t) {
        Some(choose|i: int| occurs_at(s, t, i) && forall|j: int| 0 <= j < i ==> !occurs_at(s, t, j))
    } else {
        None
    }
}

pub fn starts_with(s: &[char], p: &[char]) -> (b: bool)
    ensures
        b == has_prefix(s@, p@),
{
    if p.len() > s.len() {
        return false;
    }
    let mut i: usize = 0;
    while i < p.len()
        invariant
            p.len() <= s.len(),
            0 <= i <= p.len(),
            forall|k: int| 0 <= k < i ==> s@[k] == p@[k],
        decreases p.len() - i,
    {
        if s[i] != p[i] {
            assert(s@.take(p@.len() as int)[i as int] != p@[i as int]);
            return false;
        }
        i += 1;
    }
    assert(s@.take(p@.len() as int) =~= p@);
    true
}

pub fn ends_with(s: &[char], p: &[char]) -> (b: bool)
    ensures
        b == has_suffix(s@, p@),
{
    if p.len() > s.len() {
        return false;
    }
    let off = s.len() - p.len();
    let mut i: usize = 0;
    while i < p.len()
        invariant
            p.len() <= s.len(),
            off == s.len() - p.len(),
            0 <= i <= p.len(),
            forall|k: int| 0 <= k < i ==> s@[off + k] == p@[k],
        decreases p.len() - i,
    {
        if s[off + i] != p[i] {
            assert(s@.skip(off as int)[i as int] != p@[i as int]);
            return false;
        }
        i += 1;
    }
    assert(s@.skip(off as int) =~= p@);
    true
}

/// Whether `t` occurs in `s` at index `i`.
pub fn matches_at(s: &[char], t: &[char], i: usize) -> (b: bool)
    ensures
        b == occurs_at(s@, t@, i as int),
{
    if i > s.len() || t.len() > s.len() - i {
        return false;
    }
    let mut k: usize = 0;
    while k < t.len()
        invariant
            i + t.len() <= s.len(),
            0 <= k <= t.len(),
            forall|j: int| 0 <= j < k ==> s@[i + j] == t@[j],
        decreases t.len() - k,
    {
        if s[i + k] != t[k] {
            assert(s@.subrange(i as int, i + t.len())[k as int] != t@[k as int]);
            return false;
        }
        k += 1;
    }
    assert(s@.subrange(i as int, i + t@.len()) =~= t@);
    true
}

/// The index of the first occurrence of `t` in `s`, if any.
pub fn find_seq(s: &[char], t: &[char]) -> (r: Option<usize>)
    ensures
        r matches Some(i) ==> first_occurrence(s@, t@) == Some(i as int) && occurs_at(s@, t@, i as int),
        r is None ==> first_occurrence(s@, t@) is None,
{
    for i in 0..s.len()
        invariant
            forall|j: int| 0 <= j < i ==> !occurs_at(s@, t@, j),
    {
        if matches_at(s, t, i) {
            proof {
                lemma_first_occurrence_is(s@, t@, i as int);
            }
            return Some(i);
        }
    }
    if matches_at(s, t, s.len()) {
        proof {
            lemma_first_occurrence_is(s@, t@, s@.len() as int);
        }
        return Some(s.len());
    }
    assert forall|j: int| !occurs_at(s@, t@, j) by {
        if 0 <= j && j + t@.len() <= s@.len() && j != s@.len() {
            assert(j < s@.len());
        }
    }
    None
}

proof fn lemma_first_occurrence_is(s: Seq<char>, t: Seq<char>, i: int)
    requires
        occurs_at(s, t, i),
        forall|j: int| 0 <= j < i ==> !occurs_at(s, t, j),
    ensures
        first_occurrence(s, t) == Some(i),
{
    let c = choose|k: int| occurs_at(s, t, k) && forall|j: int| 0 <= j < k ==> !occurs_at(s, t, j);
    assert(occurs_at(s, t, c));
    if c < i {
    } else if c > i {
        assert(!occurs_at(s, t, i));
    }
}

pub fn contains(s: &[char], t: &[char]) -> (b: bool)
    ensures
        b == contains_seq(s@, t@),
{
    find_seq(s, t).is_some()
}

/// Whether `c` occurs in `s`.
pub fn contains_char(s: &[char], c: char) -> (b: bool)
    ensures
        b == s@.contains(c),
{
    for i in 0..s.len()
        invariant
            forall|k: int| 0 <= k < i ==> s@[k] != c,
    {
        if s[i] == c {
            return true;
        }
    }
    false
}

/// The first index of `c` in `s`.
pub open spec fn first_index_of(s: Seq<char>, c: char) -> int
    decreases s.len(),
{
    if s.len() == 0 {
        0
    } else if s[0] == c {
        0
    } else {
        1 + first_index_of(s.drop_first(), c)
    }
}

pub proof fn lemma_first_index_of(s: Seq<char>, c: char)
    ensures
        0 <= first_index_of(s, c) <= s.len(),
        forall|k: int| 0 <= k < first_index_of(s, c) ==> s[k] != c,
        first_index_of(s, c) < s.len() ==> s[first_index_of(s, c)] == c,
        s.contains(c) <==> first_index_of(s, c) < s.len(),
    decreases s.len(),
{
    if s.len() > 0 && s[0] != c {
        lemma_first_index_of(s.drop_first(), c);
        assert forall|k: int| 0 <= k < first_index_of(s, c) implies s[k] != c by {
            if k > 0 {
                assert(s[k] == s.drop_first()[k - 1]);
            }
        }
        if s.contains(c) {
            let w = choose|w: int| 0 <= w < s.len() && s[w] == c;
            assert(s.drop_first()[w - 1] == c);
        }
        if first_index_of(s, c) < s.len() {
            assert(s.drop_first().contains(c));
        }
    }
}

proof fn lemma_first_index_at(s: Seq<char>, c: char, i: int)
    requires
        0 <= i <= s.len(),
        forall|k: int| 0 <= k < i ==> s[k] != c,
        i == s.len() || s[i] == c,
    ensures
        first_index_of(s, c) == i,
    decreases s.len(),
{
    if s.len() > 0 && i > 0 {
        assert(s[0] != c);
        assert forall|k: int| 0 <= k < i - 1 implies s.drop_first()[k] != c by {
            assert(s[k + 1] != c);
        }
        if i < s.len() {
            assert(s.drop_first()[i - 1] == c);
        }
        lemma_first_index_at(s.drop_first(), c, i - 1);
    }
}

/// The index of the first `c` in `s`, or `s.len()` when there is none.
pub fn index_of_char(s: &[char], c: char) -> (i: usize)
    ensures
        i == first_index_of(s@, c),
{
    let mut i: usize = 0;
    while i < s.len()
        invariant
            0 <= i <= s.len(),
            forall|k: int| 0 <= k < i ==> s@[k] != c,
        decreases s.len() - i,
    {
        if s[i] == c {
            proof {
                lemma_first_index_at(s@, c, i as int);
            }
            return i;
        }
        i += 1;
    }
    proof {
        lemma_first_index_at(s@, c, i as int);
    }
    i
}

/// The subsequence `s[a..b]` as a new vector.
pub fn slice_chars(s: &[char], a: usize, b: usize) -> (r: Vec<char>)
    requires
        a <= b <= s.len(),
    ensures
        r@ == s@.subrange(a as int, b as int),
{
    let mut r: Vec<char> = Vec::new();
    let mut i: usize = a;
    while i < b
        invariant
            a <= i <= b <= s.len(),
            r@ == s@.subrange(a as int, i as int),
        decreases b - i,
    {
        r.push(s[i]);
        i += 1;
    }
    r
}

/// The character sequences held by a vector of character vectors.
pub open spec fn views(v: Seq<Vec<char>>) -> Seq<Seq<char>> {
    Seq::new(v.len(), |i: int| v[i]@)
}

pub proof fn lemma_views_push(v: Seq<Vec<char>>, x: Vec<char>)
    ensures
        views(v.push(x)) == views(v).push(x@),
{
    assert(views(v.push(x)) =~= views(v).push(x@));
}

// ---------------------------------------------------------------------------
// Lines (the behaviour of `str::lines`)
// ---------------------------------------------------------------------------

/// The index of the first `'\n'` at or after `i`, or `s.len()`.
pub open spec fn line_end_from(s: Seq<char>, i: int) -> int
    decreases s.len() - i,
{
    if i >= s.len() {
        s.len() as int
    } else if s[i] == '\n' {
        i
    } else {
        line_end_from(s, i + 1)
    }
}

/// A line as `str::lines` yields it: a `'\r'` right before the `'\n'` that
/// ends the line is dropped.
pub open spec fn strip_cr(raw: Seq<char>, ended_by_newline: bool) -> Seq<char> {
    if ended_by_newline && raw.len() > 0 && raw.last() == '\r' {
        raw.drop_last()
    } else {
        raw
    }
}

/// The lines of `s` from index `i` on.
pub open spec fn lines_from(s: Seq<char>, i: int) -> Seq<Seq<char>>
    decreases s.len() - i,
{
    if i < 0 || i >= s.len() {
        Seq::empty()
    } else {
        let e = line_end_from(s, i);
        if e < i || e > s.len() {
            Seq::empty()
        } else if e == s.len() {
            seq![strip_cr(s.subrange(i, e), false)]
        } else {
            seq![strip_cr(s.subrange(i, e), true)] + lines_from(s, e + 1)
        }
    }
}

/// The lines of `s`: split at `'\n'`, a final line ending is optional, and
/// a `'\r'` before a `'\n'` is not part of the line.
pub open spec fn lines_of(s: Seq<char>) -> Seq<Seq<char>> {
    lines_from(s, 0)
}

pub proof fn lemma_line_end_from(s: Seq<char>, i: int)
    requires
        0 <= i <= s.len(),
    ensures
        i <= line_end_from(s, i) <= s.len(),
        forall|k: int| i <= k < line_end_from(s, i) ==> s[k] != '\n',
        line_end_from(s, i) < s.len() ==> s[line_end_from(s, i)] == '\n',
    decreases s.len() - i,
{
    if i < s.len() && s[i] != '\n' {
        lemma_line_end_from(s, i + 1);
    }
}

/// The index of the first `'\n'` at or after `i`.
fn line_end(s: &[char], i: usize) -> (e: usize)
    requires
        i <= s.len(),
    ensures
        e as int == line_end_from(s@, i as int),
{
    let mut e = i;
    while e < s.len() && s[e] != '\n'
        invariant
            i <= e <= s.len(),
            line_end_from(s@, e as int) == line_end_from(s@, i as int),
        decreases s.len() - e,
    {
        e += 1;
    }
    e
}

/// The lines of `s`, as `str::lines` yields them.
pub fn split_lines(s: &[char]) -> (r: Vec<Vec<char>>)
    ensures
        views(r@) == lines_of(s@),
{
    let mut r: Vec<Vec<char>> = Vec::new();
    let mut i: usize = 0;
    while i < s.len()
        invariant
            0 <= i <= s.len(),
            views(r@) + lines_from(s@, i as int) == lines_of(s@),
        decreases s.len() - i,
    {
        let e = line_end(s, i);
        proof {
            lemma_line_end_from(s@, i as int);
        }
        let mut stop = e;
        if e < s.len() && e > i && s[e - 1] == '\r' {
            stop = e - 1;
        }
        let line = slice_chars(s, i, stop);
        let ghost before = views(r@);
        let ghost old_r = r@;
        r.push(line);
        proof {
            assert(line@ == strip_cr(s@.subrange(i as int, e as int), e < s@.len()));
            lemma_views_push(old_r, line);
            assert(views(r@) == before.push(line@));
            assert(lines_from(s@, i as int) == seq![line@] + lines_from(s@, e + 1));
            assert(before + lines_from(s@, i as int) == views(r@) + lines_from(s@, e + 1));
        }
        if e == s.len() {
            i = e;
        } else {
            i = e + 1;
        }
    }
    proof {
        assert(lines_from(s@, i as int) == Seq::<Seq<char>>::empty());
        assert(views(r@) + Seq::<Seq<char>>::empty() == views(r@));
    }
    r
}

// ---------------------------------------------------------------------------
// Trimming
// ---------------------------------------------------------------------------

/// The first index at or after `i` whose character does not satisfy `p`.
pub open spec fn skip_from(s: Seq<char>, i: int, p: spec_fn(char) -> bool) -> int
    decreases s.len() - i,
{
    if 0 <= i < s.len() && p(s[i]) {
        skip_from(s, i + 1, p)
    } else {
        i
    }
}

/// The end of `s[..j]` once trailing characters satisfying `p` are dropped.
pub open spec fn back_from(s: Seq<char>, j: int, p: spec_fn(char) -> bool) -> int
    decreases j,
{
    if 0 < j <= s.len() && p(s[j - 1]) {
        back_from(s, j - 1, p)
    } else {
        j
    }
}

pub open spec fn ws() -> spec_fn(char) -> bool {
    |c: char| unicode_whitespace(c)
}

/// `s` without leading characters satisfying `p`.
pub open spec fn trim_start_by(s: Seq<char>, p: spec_fn(char) -> bool) -> Seq<char> {
    s.skip(skip_from(s, 0, p))
}

/// `s` without trailing characters satisfying `p`.
pub open spec fn trim_end_by(s: Seq<char>, p: spec_fn(char) -> bool) -> Seq<char> {
    s.take(back_from(s, s.len() as int, p))
}

/// `s` without leading and trailing characters satisfying `p`.
pub open spec fn trim_by(s: Seq<char>, p: spec_fn(char) -> bool) -> Seq<char> {
    trim_end_by(trim_start_by(s, p), p)
}

/// `str::trim`: no leading or trailing Unicode whitespace.
pub open spec fn trim_seq(s: Seq<char>) -> Seq<char> {
    trim_by(s, ws())
}

/// `str::trim_start`.
pub open spec fn trim_start_seq(s: Seq<char>) -> Seq<char> {
    trim_start_by(s, ws())
}

pub proof fn lemma_skip_from(s: Seq<char>, i: int, p: spec_fn(char) -> bool)
    requires
        0 <= i <= s.len(),
    ensures
        i <= skip_from(s, i, p) <= s.len(),
        forall|k: int| i <= k < skip_from(s, i, p) ==> p(s[k]),
        skip_from(s, i, p) < s.len() ==> !p(s[skip_from(s, i, p)]),
    decreases s.len() - i,
{
    if i < s.len() && p(s[i]) {
        lemma_skip_from(s, i + 1, p);
    }
}

pub proof fn lemma_back_from(s: Seq<char>, j: int, p: spec_fn(char) -> bool)
    requires
        0 <= j <= s.len(),
    ensures
        0 <= back_from(s, j, p) <= j,
        forall|k: int| back_from(s, j, p) <= k < j ==> p(s[k]),
        back_from(s, j, p) > 0 ==> !p(s[back_from(s, j, p) - 1]),
    decreases j,
{
    if j > 0 && p(s[j - 1]) {
        lemma_back_from(s, j - 1, p);
    }
}

/// The index of the first non-whitespace character at or after `i`.
fn skip_whitespace(s: &[char], i: usize) -> (k: usize)
    requires
        i <= s.len(),
    ensures
        k as int == skip_from(s@, i as int, ws()),
{
    let mut k = i;
    while k < s.len() && is_whitespace(s[k])
        invariant
            i <= k <= s.len(),
            skip_from(s@, k as int, ws()) == skip_from(s@, i as int, ws()),
        decreases s.len() - k,
    {
        k += 1;
    }
    k
}

/// The end of `s[..j]` without trailing whitespace.
fn back_whitespace(s: &[char], j: usize) -> (k: usize)
    requires
        j <= s.len(),
    ensures
        k as int == back_from(s@, j as int, ws()),
{
    let mut k = j;
    while k > 0 && is_whitespace(s[k - 1])
        invariant
            k <= j <= s.len(),
            back_from(s@, k as int, ws()) == back_from(s@, j as int, ws()),
        decreases k,
    {
        k -= 1;
    }
    k
}

/// `str::trim` on a character vector.
pub fn trim(s: &[char]) -> (r: Vec<char>)
    ensures
        r@ == trim_seq(s@),
{
    let a = skip_whitespace(s, 0);
    proof {
        lemma_skip_from(s@, 0, ws());
    }
    let t = slice_chars(s, a, s.len());
    let b = back_whitespace(&t, t.len());
    proof {
        lemma_back_from(t@, t@.len() as int, ws());
    }
    slice_chars(&t, 0, b)
}

/// `str::trim_start` on a character vector.
pub fn trim_start(s: &[char]) -> (r: Vec<char>)
    ensures
        r@ == trim_start_seq(s@),
{
    let a = skip_whitespace(s, 0);
    proof {
        lemma_skip_from(s@, 0, ws());
    }
    slice_chars(s, a, s.len())
}

// ---------------------------------------------------------------------------
// Splitting
// ---------------------------------------------------------------------------

/// The index of the first character at or after `i` satisfying `p`, or `s.len()`.
pub open spec fn find_from(s: Seq<char>, i: int, p: spec_fn(char) -> bool) -> int
    decreases s.len() - i,
{
    if i < 0 || i >= s.len() {
        s.len() as int
    } else if p(s[i]) {
        i
    } else {
        find_from(s, i + 1, p)
    }
}

pub proof fn lemma_find_from(s: Seq<char>, i: int, p: spec_fn(char) -> bool)
    requires
        0 <= i <= s.len(),
    ensures
        i <= find_from(s, i, p) <= s.len(),
        forall|k: int| i <= k < find_from(s, i, p) ==> !p(s[k]),
        find_from(s, i, p) < s.len() ==> p(s[find_from(s, i, p)]),
    decreases s.len() - i,
{
    if i < s.len() && !p(s[i]) {
        lemma_find_from(s, i + 1, p);
    }
}

/// The whitespace-separated words of `s` from index `i` on.
pub open spec fn words_from(s: Seq<char>, i: int) -> Seq<Seq<char>>
    decreases s.len() - i,
{
    let a = skip_from(s, i, ws());
    if i < 0 || a >= s.len() || a < i {
        Seq::empty()
    } else {
        let b = find_from(s, a, ws());
        if b <= a || b > s.len() {
            Seq::empty()
        } else {
            seq![s.subrange(a, b)] + words_from(s, b)
        }
    }
}

/// `str::split_whitespace`: the maximal runs of non-whitespace characters.
pub open spec fn words_of(s: Seq<char>) -> Seq<Seq<char>> {
    words_from(s, 0)
}

/// The index of the first whitespace character at or after `i`.
fn find_whitespace(s: &[char], i: usize) -> (k: usize)
    requires
        i <= s.len(),
    ensures
        k as int == find_from(s@, i as int, ws()),
{
    let mut k = i;
    while k < s.len() && !is_whitespace(s[k])
        invariant
            i <= k <= s.len(),
            find_from(s@, k as int, ws()) == find_from(s@, i as int, ws()),
        decreases s.len() - k,
    {
        k += 1;
    }
    k
}

/// `str::split_whitespace` on a character vector.
pub fn split_words(s: &[char]) -> (r: Vec<Vec<char>>)
    ensures
        views(r@) == words_of(s@),
{
    let mut r: Vec<Vec<char>> = Vec::new();
    let mut i: usize = 0;
    while i < s.len()
        invariant
            0 <= i <= s.len(),
            views(r@) + words_from(s@, i as int) == words_of(s@),
        decreases s.len() - i,
    {
        let a = skip_whitespace(s, i);
        proof {
            lemma_skip_from(s@, i as int, ws());
        }
        if a >= s.len() {
            proof {
                assert(words_from(s@, i as int) == Seq::<Seq<char>>::empty());
                assert(words_from(s@, s@.len() as int) == Seq::<Seq<char>>::empty());
            }
            i = s.len();
        } else {
            let b = find_whitespace(s, a);
            proof {
                lemma_find_from(s@, a as int, ws());
            }
            let w = slice_chars(s, a, b);
            let ghost before = views(r@);
            let ghost old_r = r@;
            r.push(w);
            proof {
                lemma_views_push(old_r, w);
            assert(views(r@) == before.push(w@));
                assert(words_from(s@, i as int) == seq![w@] + words_from(s@, b as int));
                assert(before + words_from(s@, i as int) == views(r@) + words_from(s@, b as int));
            }
            i = b;
        }
    }
    proof {
        assert(words_from(s@, i as int) == Seq::<Seq<char>>::empty());
        assert(views(r@) + Seq::<Seq<char>>::empty() == views(r@));
    }
    r
}

/// The predicate "is the character `c`".
pub open spec fn is_char(c: char) -> spec_fn(char) -> bool {
    |x: char| x == c
}

/// The pieces of `s` between occurrences of `c`, from index `i` on.
pub open spec fn pieces_from(s: Seq<char>, i: int, c: char) -> Seq<Seq<char>>
    decreases s.len() - i,
{
    if i < 0 || i > s.len() {
        Seq::empty()
    } else {
        let e = find_from(s, i, is_char(c));
        if e >= s.len() || e < i {
            seq![s.subrange(i, s.len() as int)]
        } else {
            seq![s.subrange(i, e)] + pieces_from(s, e + 1, c)
        }
    }
}

/// `str::split(c)`: the pieces between occurrences of `c`, empty ones included.
pub open spec fn split_seq(s: Seq<char>, c: char) -> Seq<Seq<char>> {
    pieces_from(s, 0, c)
}

/// `str::split(c)` on a character vector.
pub fn split_on(s: &[char], c: char) -> (r: Vec<Vec<char>>)
    ensures
        views(r@) == split_seq(s@, c),
{
    let mut r: Vec<Vec<char>> = Vec::new();
    let mut i: usize = 0;
    loop
        invariant
            0 <= i <= s.len(),
            views(r@) + pieces_from(s@, i as int, c) == split_seq(s@, c),
        decreases s.len() - i,
    {
        let mut e = i;
        while e < s.len() && s[e] != c
            invariant
                i <= e <= s.len(),
                find_from(s@, e as int, is_char(c)) == find_from(s@, i as int, is_char(c)),
            decreases s.len() - e,
        {
            e += 1;
        }
        proof {
            lemma_find_from(s@, i as int, is_char(c));
        }
        let piece = slice_chars(s, i, e);
        let ghost before = views(r@);
        let ghost old_r = r@;
        r.push(piece);
        if e >= s.len() {
            proof {
                assert(pieces_from(s@, i as int, c) == seq![piece@]);
                lemma_views_push(old_r, piece);
            assert(views(r@) == before.push(piece@));
                assert(before + pieces_from(s@, i as int, c) == views(r@));
            }
            return r;
        }
        proof {
            lemma_views_push(old_r, piece);
            assert(views(r@) == before.push(piece@));
            assert(pieces_from(s@, i as int, c) == seq![piece@] + pieces_from(s@, e + 1, c));
            assert(before + pieces_from(s@, i as int, c) == views(r@) + pieces_from(s@, e + 1, c));
        }
        i = e + 1;
    }
}

// ---------------------------------------------------------------------------
// Decimal formatting (the behaviour of `Display` for unsigned integers)
// ---------------------------------------------------------------------------

pub open spec fn digit_char(d: nat) -> char {
    if d == 0 { '0' }
    else if d == 1 { '1' }
    else if d == 2 { '2' }
    else if d == 3 { '3' }
    else if d == 4 { '4' }
    else if d == 5 { '5' }
    else if d == 6 { '6' }
    else if d == 7 { '7' }
    else if d == 8 { '8' }
    else { '9' }
}

/// The decimal digits of `n`, most significant first, without leading zeros.
pub open spec fn decimal(n: nat) -> Seq<char>
    decreases n,
{
    if n < 10 {
        seq![digit_char(n)]
    } else {
        decimal(n / 10).push(digit_char(n % 10))
    }
}

/// `decimal(n)` padded on the left with `'0'` to at least `width` characters.
pub open spec fn zero_padded(n: nat, width: nat) -> Seq<char> {
    let d = decimal(n);
    if d.len() < width {
        Seq::new((width - d.len()) as nat, |i: int| '0') + d
    } else {
        d
    }
}

fn digit(d: u64) -> (c: char)
    requires
        d < 10,
    ensures
        c == digit_char(d as nat),
{
    if d == 0 { '0' }
    else if d == 1 { '1' }
    else if d == 2 { '2' }
    else if d == 3 { '3' }
    else if d == 4 { '4' }
    else if d == 5 { '5' }
    else if d == 6 { '6' }
    else if d == 7 { '7' }
    else if d == 8 { '8' }
    else { '9' }
}

/// Appends the decimal digits of `n`.
pub fn push_decimal(s: &mut String, n: u64)
    ensures
        final(s)@ == old(s)@ + decimal(n as nat),
    decreases n,
{
    if n >= 10 {
        push_decimal(s, n / 10);
    }
    push_char(s, digit(n % 10));
}

/// Appends the decimal digits of `n`, zero-padded to `width`.
pub fn push_zero_padded(s: &mut String, n: u64, width: usize)
    ensures
        final(s)@ == old(s)@ + zero_padded(n as nat, width as nat),
{
    let len = decimal_len(n);
    let ghost start = s@;
    if len < width {
        let mut k: usize = 0;
        while k < width - len
            invariant
                len < width,
                k <= width - len,
                s@ == start + Seq::new(k as nat, |i: int| '0'),
            decreases width - len - k,
        {
            push_char(s, '0');
            k += 1;
            assert(s@ =~= start + Seq::new(k as nat, |i: int| '0'));
        }
    }
    let ghost mid = s@;
    assert(len < width ==> mid == start + Seq::new((width - len) as nat, |i: int| '0'));
    push_decimal(s, n);
    proof {
        if len < width {
            assert(s@ =~= start + (Seq::new((width - len) as nat, |i: int| '0') + decimal(n as nat)));
        } else {
            assert(s@ =~= start + decimal(n as nat));
        }
    }
}

pub open spec fn pow10(k: nat) -> nat
    decreases k,
{
    if k == 0 { 1 } else { 10 * pow10((k - 1) as nat) }
}

pub proof fn lemma_decimal_len_bound(n: nat, k: nat)
    requires
        k >= 1,
        n < pow10(k),
    ensures
        decimal(n).len() <= k,
    decreases k,
{
    if n >= 10 {
        assert(pow10(k) == 10 * pow10((k - 1) as nat));
        assert(k >= 2) by {
            if k == 1 {
                assert(pow10(1) == 10) by { assert(pow10(0) == 1); }
            }
        }
        assert(n / 10 < pow10((k - 1) as nat));
        lemma_decimal_len_bound(n / 10, (k - 1) as nat);
    }
}

/// The number of decimal digits of `n`.
pub fn decimal_len(n: u64) -> (l: usize)
    ensures
        l as int == decimal(n as nat).len(),
        l <= 20,
    decreases n,
{
    proof {
        reveal_with_fuel(pow10, 21);
        assert(pow10(20) == 100000000000000000000nat);
        lemma_decimal_len_bound(n as nat, 20);
    }
    if n < 10 {
        1
    } else {
        decimal_len(n / 10) + 1
    }
}

/// The decimal representation of `n`, as `n.to_string()`.
pub fn decimal_string(n: u64) -> (s: String)
    ensures
        s@ == decimal(n as nat),
{
    let mut s = String::new();
    push_decimal(&mut s, n);
    s
}

// ---------------------------------------------------------------------------
// Stripping affixes; texts of string vectors
// ---------------------------------------------------------------------------

/// `s` without the suffix `p`, or `s` when it does not end with `p`
/// (`strip_suffix(p).unwrap_or(s)`).
pub open spec fn without_suffix(s: Seq<char>, p: Seq<char>) -> Seq<char> {
    if has_suffix(s, p) {
        s.take(s.len() - p.len())
    } else {
        s
    }
}

/// `s` without the prefix `p`, or `s` when it does not start with `p`.
pub open spec fn without_prefix(s: Seq<char>, p: Seq<char>) -> Seq<char> {
    if has_prefix(s, p) {
        s.skip(p.len() as int)
    } else {
        s
    }
}

pub fn strip_suffix_or_keep(s: &[char], p: &[char]) -> (r: Vec<char>)
    ensures
        r@ == without_suffix(s@, p@),
{
    if ends_with(s, p) {
        slice_chars(s, 0, s.len() - p.len())
    } else {
        slice_chars(s, 0, s.len())
    }
}

pub fn strip_prefix_or_keep(s: &[char], p: &[char]) -> (r: Vec<char>)
    ensures
        r@ == without_prefix(s@, p@),
{
    if starts_with(s, p) {
        slice_chars(s, p.len(), s.len())
    } else {
        slice_chars(s, 0, s.len())
    }
}

/// The texts held by a sequence of strings.
pub open spec fn texts(v: Seq<String>) -> Seq<Seq<char>> {
    v.map_values(|s: String| s@)
}

/// A vector of strings made from character vectors.
pub fn strings_of(v: &Vec<Vec<char>>) -> (r: Vec<String>)
    ensures
        texts(r@) == views(v@),
{
    let mut r: Vec<String> = Vec::new();
    for i in 0..v.len()
        invariant
            r@.len() == i,
            forall|k: int| 0 <= k < i ==> (#[trigger] r@[k])@ == v@[k]@,
    {
        r.push(string_of(&v[i]));
    }
    assert(texts(r@) =~= views(v@));
    r
}

/// `parts` joined with `sep` between consecutive parts.
pub open spec fn joined(parts: Seq<Seq<char>>, sep: Seq<char>) -> Seq<char>
    decreases parts.len(),
{
    if parts.len() == 0 {
        Seq::empty()
    } else if parts.len() == 1 {
        parts[0]
    } else {
        joined(parts.drop_last(), sep) + sep + parts.last()
    }
}

/// `parts.join(sep)`.
pub fn join_texts(parts: &Vec<String>, sep: &str) -> (s: String)
    ensures
        s@ == joined(texts(parts@), sep@),
{
    let mut s = String::new();
    let ghost ts = texts(parts@);
    for i in 0..parts.len()
        invariant
            ts == texts(parts@),
            s@ == joined(ts.take(i as int), sep@),
    {
        assert(ts.take(i + 1).drop_last() =~= ts.take(i as int));
        if i > 0 {
            push_str(&mut s, sep);
        }
        push_str(&mut s, parts[i].as_str());
    }
    assert(ts.take(parts.len() as int) =~= ts);
    s
}

/// `parts.join(sep)` for character vectors.
pub fn join_chars(parts: &Vec<Vec<char>>, sep: &str) -> (s: String)
    ensures
        s@ == joined(views(parts@), sep@),
{
    let mut s = String::new();
    let ghost ts = views(parts@);
    for i in 0..parts.len()
        invariant
            ts == views(parts@),
            s@ == joined(ts.take(i as int), sep@),
    {
        assert(ts.take(i + 1).drop_last() =~= ts.take(i as int));
        if i > 0 {
            push_str(&mut s, sep);
        }
        push_chars(&mut s, parts[i].as_slice());
    }
    assert(ts.take(parts.len() as int) =~= ts);
    s
}

/// The pieces `str::split_inclusive('\n')` yields from index `i` on: each
/// line with its newline; a last piece without one when the text does not
/// end in a newline.
pub open spec fn inclusive_lines_from(s: Seq<char>, i: int) -> Seq<Seq<char>>
    decreases s.len() - i,
{
    if i < 0 || i >= s.len() {
        Seq::empty()
    } else {
        let e = find_from(s, i, is_char('\n'));
        if e >= s.len() || e < i {
            seq![s.subrange(i, s.len() as int)]
        } else {
            seq![s.subrange(i, e + 1)] + inclusive_lines_from(s, e + 1)
        }
    }
}

pub open spec fn inclusive_lines(s: Seq<char>) -> Seq<Seq<char>> {
    inclusive_lines_from(s, 0)
}

/// `str::split_inclusive('\n')` on a character vector.
pub fn split_inclusive_lines(s: &[char]) -> (r: Vec<Vec<char>>)
    ensures
        views(r@) == inclusive_lines(s@),
{
    let mut r: Vec<Vec<char>> = Vec::new();
    let mut i: usize = 0;
    while i < s.len()
        invariant
            0 <= i <= s.len(),
            views(r@) + inclusive_lines_from(s@, i as int) == inclusive_lines(s@),
        decreases s.len() - i,
    {
        let mut e = i;
        while e < s.len() && s[e] != '\n'
            invariant
                i <= e <= s.len(),
                find_from(s@, e as int, is_char('\n')) == find_from(s@, i as int, is_char('\n')),
            decreases s.len() - e,
        {
            e += 1;
        }
        proof {
            lemma_find_from(s@, i as int, is_char('\n'));
        }
        let ghost before = views(r@);
        let ghost old_r = r@;
        if e >= s.len() {
            let piece = slice_chars(s, i, s.len());
            r.push(piece);
            proof {
                lemma_views_push(old_r, piece);
                assert(inclusive_lines_from(s@, s@.len() as int) =~= Seq::<Seq<char>>::empty());
                assert(views(r@) + inclusive_lines_from(s@, s@.len() as int) =~= before
                    + inclusive_lines_from(s@, i as int));
            }
            i = s.len();
        } else {
            let piece = slice_chars(s, i, e + 1);
            r.push(piece);
            proof {
                lemma_views_push(old_r, piece);
                assert(inclusive_lines_from(s@, i as int) == seq![piece@] + inclusive_lines_from(
                    s@,
                    e + 1,
                ));
                assert(views(r@) + inclusive_lines_from(s@, e + 1) =~= before
                    + inclusive_lines_from(s@, i as int));
            }
            i = e + 1;
        }
    }
    assert(inclusive_lines_from(s@, i as int) =~= Seq::<Seq<char>>::empty());
    assert(views(r@) =~= views(r@) + inclusive_lines_from(s@, i as int));
    r
}

/// UTF-8 encoding distributes over concatenation.
pub proof fn lemma_encode_utf8_concat(a: Seq<char>, b: Seq<char>)
    ensures
        vstd::utf8::encode_utf8(a + b) == vstd::utf8::encode_utf8(a) + vstd::utf8::encode_utf8(b),
    decreases a.len(),
{
    if a.len() == 0 {
        assert(a + b =~= b);
        assert(vstd::utf8::encode_utf8(a) =~= Seq::<u8>::empty());
        assert(vstd::utf8::encode_utf8(a) + vstd::utf8::encode_utf8(b) =~= vstd::utf8::encode_utf8(b));
    } else {
        lemma_encode_utf8_concat(a.drop_first(), b);
        assert((a + b).drop_first() =~= a.drop_first() + b);
        assert((a + b)[0] == a[0]);
        assert(vstd::utf8::encode_utf8(a + b) =~= vstd::utf8::encode_utf8(a) + vstd::utf8::encode_utf8(b));
    }
}

/// The byte offset of character index `i` of `s`.
pub open spec fn byte_offset(s: Seq<char>, i: int) -> int {
    vstd::utf8::encode_utf8(s.take(i)).len() as int
}

/// Byte offsets grow with the character index and end at the byte length.
pub proof fn lemma_byte_offset_split(s: Seq<char>, i: int, j: int)
    requires
        0 <= i <= j <= s.len(),
    ensures
        byte_offset(s, j) == byte_offset(s, i) + vstd::utf8::encode_utf8(s.subrange(i, j)).len(),
        byte_offset(s, j) <= vstd::utf8::encode_utf8(s).len(),
{
    lemma_encode_utf8_concat(s.take(i), s.subrange(i, j));
    assert(s.take(i) + s.subrange(i, j) =~= s.take(j));
    lemma_encode_utf8_concat(s.take(j), s.skip(j));
    assert(s.take(j) + s.skip(j) =~= s);
}

} // verus!
