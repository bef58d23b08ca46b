//! Character-level scanning utilities.
//!
//! The annotation grammars in this crate are line oriented; every scanner
//! works over a `Vec<char>` so that each step is stated over `Seq<char>`.

use vstd::prelude::*;

verus! {

/// An identifier ("word") character: ASCII letter, digit or underscore.
pub open spec fn spec_is_word_char(c: char) -> bool {
    ('a' <= c && c <= 'z') || ('A' <= c && c <= 'Z') || ('0' <= c && c <= '9') || c == '_'
}

pub fn is_word_char(c: char) -> (r: bool)
    ensures
        r == spec_is_word_char(c),
{
    ('a' <= c && c <= 'z') || ('A' <= c && c <= 'Z') || ('0' <= c && c <= '9') || c == '_'
}

/// A whitespace character (space, tab, newline, carriage return,
/// form feed or vertical tab).
pub open spec fn spec_is_space(c: char) -> bool {
    c == ' ' || c == '\t' || c == '\n' || c == '\r' || c == '\u{000C}' || c == '\u{000B}'
}

pub fn is_space(c: char) -> (r: bool)
    ensures
        r == spec_is_space(c),
{
    c == ' ' || c == '\t' || c == '\n' || c == '\r' || c == '\u{000C}' || c == '\u{000B}'
}

/// ASCII lower-casing of a single character; everything outside `A..=Z`
/// is left unchanged.
pub open spec fn spec_lower_char(c: char) -> char {
    if 'A' <= c && c <= 'Z' {
        if c == 'A' { 'a' } else if c == 'B' { 'b' } else if c == 'C' { 'c' }
        else if c == 'D' { 'd' } else if c == 'E' { 'e' } else if c == 'F' { 'f' }
        else if c == 'G' { 'g' } else if c == 'H' { 'h' } else if c == 'I' { 'i' }
        else if c == 'J' { 'j' } else if c == 'K' { 'k' } else if c == 'L' { 'l' }
        else if c == 'M' { 'm' } else if c == 'N' { 'n' } else if c == 'O' { 'o' }
        else if c == 'P' { 'p' } else if c == 'Q' { 'q' } else if c == 'R' { 'r' }
        else if c == 'S' { 's' } else if c == 'T' { 't' } else if c == 'U' { 'u' }
        else if c == 'V' { 'v' } else if c == 'W' { 'w' } else if c == 'X' { 'x' }
        else if c == 'Y' { 'y' } else { 'z' }
    } else {
        c
    }
}

pub fn lower_char(c: char) -> (r: char)
    ensures
        r == spec_lower_char(c),
{
    if 'A' <= c && c <= 'Z' {
        if c == 'A' { 'a' } else if c == 'B' { 'b' } else if c == 'C' { 'c' }
        else if c == 'D' { 'd' } else if c == 'E' { 'e' } else if c == 'F' { 'f' }
        else if c == 'G' { 'g' } else if c == 'H' { 'h' } else if c == 'I' { 'i' }
        else if c == 'J' { 'j' } else if c == 'K' { 'k' } else if c == 'L' { 'l' }
        else if c == 'M' { 'm' } else if c == 'N' { 'n' } else if c == 'O' { 'o' }
        else if c == 'P' { 'p' } else if c == 'Q' { 'q' } else if c == 'R' { 'r' }
        else if c == 'S' { 's' } else if c == 'T' { 't' } else if c == 'U' { 'u' }
        else if c == 'V' { 'v' } else if c == 'W' { 'w' } else if c == 'X' { 'x' }
        else if c == 'Y' { 'y' } else { 'z' }
    } else {
        c
    }
}

/// ASCII lower-casing of a whole character sequence.
pub open spec fn spec_lower(s: Seq<char>) -> Seq<char> {
    s.map_values(|c: char| spec_lower_char(c))
}

/// The characters of a string, in order.
pub fn to_chars(s: &str) -> (r: Vec<char>)
    ensures
        r@ == s@,
{
    let n = s.unicode_len();
    let mut r: Vec<char> = Vec::new();
    let mut i: usize = 0;
    while i < n
        invariant
            i <= n,
            n == s@.len(),
            r@ == s@.take(i as int),
        decreases n - i,
    {
        r.push(s.get_char(i));
        i += 1;
    }
    assert(s@.take(n as int) =~= s@);
    r
}

/// Builds a `String` from a character sequence.
///
/// Relies on std's `FromIterator` for `String`: collecting characters
/// yields the string holding exactly those characters in order.
#[verifier::external_body]
pub fn chars_to_string(v: &Vec<char>) -> (r: String)
    ensures
        r@ == v@,
{
    v.iter().collect()
}

/// Concatenation of two string slices.
pub fn str_concat(a: &str, b: &str) -> (r: String)
    ensures
        r@ == a@ + b@,
{
    let mut r = a.to_owned();
    r.append(b);
    r
}

/// Concatenation of three string slices.
pub fn str_concat3(a: &str, b: &str, c: &str) -> (r: String)
    ensures
        r@ == a@ + b@ + c@,
{
    let mut r = a.to_owned();
    r.append(b);
    r.append(c);
    r
}

pub fn lower_chars(v: &Vec<char>) -> (r: Vec<char>)
    ensures
        r@ == spec_lower(v@),
{
    let mut r: Vec<char> = Vec::new();
    let mut i: usize = 0;
    while i < v.len()
        invariant
            i <= v@.len(),
            r@ == spec_lower(v@.take(i as int)),
        decreases v@.len() - i,
    {
        r.push(lower_char(v[i]));
        assert(spec_lower(v@.take(i + 1 as int)) =~= spec_lower(v@.take(i as int)).push(
            spec_lower_char(v@[i as int]),
        ));
        i += 1;
    }
    assert(v@.take(v@.len() as int) =~= v@);
    r
}

/// Equality between a character vector and a string slice.
pub fn eq_str(v: &Vec<char>, s: &str) -> (r: bool)
    ensures
        r == (v@ == s@),
{
    let n = s.unicode_len();
    if v.len() != n {
        assert(v@.len() != s@.len());
        return false;
    }
    let mut i: usize = 0;
    while i < n
        invariant
            i <= n,
            n == s@.len(),
            v@.len() == n,
            forall|j: int| 0 <= j < i ==> v@[j] == s@[j],
        decreases n - i,
    {
        if v[i] != s.get_char(i) {
            return false;
        }
        i += 1;
    }
    assert(v@ =~= s@);
    true
}

/// The subrange `v[from..to]` as a fresh vector.
pub fn sub_chars(v: &Vec<char>, from: usize, to: usize) -> (r: Vec<char>)
    requires
        from <= to <= v@.len(),
    ensures
        r@ == v@.subrange(from as int, to as int),
{
    let mut r: Vec<char> = Vec::new();
    let mut i: usize = from;
    while i < to
        invariant
            from <= i <= to <= v@.len(),
            r@ == v@.subrange(from as int, i as int),
        decreases to - i,
    {
        r.push(v[i]);
        assert(v@.subrange(from as int, i + 1 as int) =~= v@.subrange(from as int, i as int).push(
            v@[i as int],
        ));
        i += 1;
    }
    r
}

/// Whether `pat` occurs in `h` starting exactly at `at`.
pub open spec fn spec_match_at(h: Seq<char>, pat: Seq<char>, at: int) -> bool {
    0 <= at && at + pat.len() <= h.len() && h.subrange(at, at + pat.len()) == pat
}

pub fn match_at(v: &Vec<char>, pat: &str, at: usize) -> (r: bool)
    ensures
        r == spec_match_at(v@, pat@, at as int),
{
    let m = pat.unicode_len();
    if at > v.len() || m > v.len() - at {
        assert(!spec_match_at(v@, pat@, at as int));
        return false;
    }
    let mut i: usize = 0;
    while i < m
        invariant
            i <= m,
            m == pat@.len(),
            at + m <= v.len(),
            v.len() == v@.len(),
            forall|j: int| 0 <= j < i ==> v@[at + j] == pat@[j],
        decreases m - i,
    {
        if v[at + i] != pat.get_char(i) {
            assert(v@.subrange(at as int, at + m as int)[i as int] != pat@[i as int]);
            return false;
        }
        i += 1;
    }
    assert(v@.subrange(at as int, at + m as int) =~= pat@);
    true
}

/// The least position at or after `from` where `pat` occurs in `h`.
pub open spec fn spec_find_at(h: Seq<char>, pat: Seq<char>, from: int) -> Option<int>
    decreases h.len() - from + 1 when 0 <= from
{
    if from + pat.len() > h.len() {
        None
    } else if spec_match_at(h, pat, from) {
        Some(from)
    } else {
        spec_find_at(h, pat, from + 1)
    }
}

pub fn find_at(v: &Vec<char>, pat: &str, from: usize) -> (r: Option<usize>)
    ensures
        match r {
            Some(i) => spec_find_at(v@, pat@, from as int) == Some(i as int),
            None => spec_find_at(v@, pat@, from as int) is None,
        },
{
    let m = pat.unicode_len();
    if m == 0 {
        if from <= v.len() {
            assert(v@.subrange(from as int, from as int) =~= pat@);
            return Some(from);
        } else {
            return None;
        }
    }
    let mut i: usize = from;
    while i <= v.len() && m <= v.len() - i
        invariant
            from <= i,
            1 <= m == pat@.len(),
            spec_find_at(v@, pat@, from as int) == spec_find_at(v@, pat@, i as int),
        decreases v@.len() - i,
    {
        if match_at(v, pat, i) {
            return Some(i);
        }
        i += 1;
    }
    None
}

/// The end of the run of characters satisfying `word`-ness starting at `i`:
/// the least `j >= i` such that `j` is the length or `h[j]` is no word char.
pub open spec fn spec_word_run_end(h: Seq<char>, i: int) -> int
    decreases h.len() - i when 0 <= i <= h.len()
{
    if i == h.len() || !spec_is_word_char(h[i]) {
        i
    } else {
        spec_word_run_end(h, i + 1)
    }
}

pub fn word_run_end(v: &Vec<char>, i: usize) -> (r: usize)
    requires
        i <= v@.len(),
    ensures
        r == spec_word_run_end(v@, i as int),
        i <= r <= v@.len(),
{
    let mut j: usize = i;
    while j < v.len() && is_word_char(v[j])
        invariant
            i <= j <= v@.len(),
            spec_word_run_end(v@, i as int) == spec_word_run_end(v@, j as int),
        decreases v@.len() - j,
    {
        j += 1;
    }
    j
}

/// The end of the run of whitespace characters starting at `i`.
pub open spec fn spec_space_run_end(h: Seq<char>, i: int) -> int
    decreases h.len() - i when 0 <= i <= h.len()
{
    if i == h.len() || !spec_is_space(h[i]) {
        i
    } else {
        spec_space_run_end(h, i + 1)
    }
}

pub fn space_run_end(v: &Vec<char>, i: usize) -> (r: usize)
    requires
        i <= v@.len(),
    ensures
        r == spec_space_run_end(v@, i as int),
        i <= r <= v@.len(),
{
    let mut j: usize = i;
    while j < v.len() && is_space(v[j])
        invariant
            i <= j <= v@.len(),
            spec_space_run_end(v@, i as int) == spec_space_run_end(v@, j as int),
        decreases v@.len() - j,
    {
        j += 1;
    }
    j
}

/// The sequence without leading and trailing whitespace.
pub open spec fn spec_trim(s: Seq<char>) -> Seq<char>
    decreases s.len(),
{
    if s.len() == 0 {
        s
    } else if spec_is_space(s[0]) {
        spec_trim(s.skip(1))
    } else if spec_is_space(s[s.len() - 1]) {
        spec_trim(s.take(s.len() - 1))
    } else {
        s
    }
}

pub fn trim_chars(v: &Vec<char>) -> (r: Vec<char>)
    ensures
        r@ == spec_trim(v@),
{
    let mut lo: usize = 0;
    assert(v@.skip(0) =~= v@);
    while lo < v.len() && is_space(v[lo])
        invariant
            lo <= v@.len(),
            spec_trim(v@) == spec_trim(v@.skip(lo as int)),
            forall|j: int| 0 <= j < lo ==> spec_is_space(v@[j]),
        decreases v@.len() - lo,
    {
        assert(v@.skip(lo as int).skip(1) =~= v@.skip(lo + 1 as int));
        lo += 1;
    }
    let mut hi: usize = v.len();
    assert(v@.subrange(lo as int, v@.len() as int) =~= v@.skip(lo as int));
    while hi > lo && is_space(v[hi - 1])
        invariant
            lo <= hi <= v@.len(),
            lo < v@.len() ==> !spec_is_space(v@[lo as int]),
            spec_trim(v@) == spec_trim(v@.subrange(lo as int, hi as int)),
        decreases hi,
    {
        assert(v@.subrange(lo as int, hi as int).take(hi - lo - 1) =~= v@.subrange(
            lo as int,
            hi - 1 as int,
        ));
        hi -= 1;
    }
    let r = sub_chars(v, lo, hi);
    proof {
        let w = v@.subrange(lo as int, hi as int);
        if w.len() > 0 {
            assert(w[0] == v@[lo as int]);
            assert(w[w.len() - 1] == v@[hi - 1]);
        }
        assert(spec_trim(w) == w);
    }
    r
}

/// Whitespace normalisation: every maximal run of whitespace becomes a
/// single space character.
pub open spec fn spec_collapse_ws(s: Seq<char>) -> Seq<char>
    decreases s.len() via spec_collapse_ws_decreases
{
    if s.len() == 0 {
        s
    } else if spec_is_space(s[0]) {
        seq![' '] + spec_collapse_ws(s.skip(spec_space_run_end(s, 0)))
    } else {
        seq![s[0]] + spec_collapse_ws(s.skip(1))
    }
}

#[via_fn]
proof fn spec_collapse_ws_decreases(s: Seq<char>) {
    if s.len() > 0 && spec_is_space(s[0]) {
        lemma_space_run_end_ge(s, 1);
    }
}

pub fn collapse_ws(v: &Vec<char>) -> (r: Vec<char>)
    ensures
        r@ == spec_collapse_ws(v@),
{
    let mut r: Vec<char> = Vec::new();
    let mut i: usize = 0;
    assert(v@.skip(0) =~= v@);
    assert(r@ + spec_collapse_ws(v@) =~= spec_collapse_ws(v@));
    while i < v.len()
        invariant
            i <= v@.len(),
            r@ + spec_collapse_ws(v@.skip(i as int)) == spec_collapse_ws(v@),
        decreases v@.len() - i,
    {
        let ghost r0 = r@;
        if is_space(v[i]) {
            r.push(' ');
            let j = space_run_end(v, i);
            proof {
                lemma_space_run_end_skip(v@, i as int);
                lemma_space_run_end_ge(v@, i as int);
                assert(v@.skip(i as int).skip(spec_space_run_end(v@.skip(i as int), 0)) =~= v@.skip(
                    j as int,
                ));
                assert(r@ + spec_collapse_ws(v@.skip(j as int)) =~= r0 + (seq![' ']
                    + spec_collapse_ws(v@.skip(j as int))));
            }
            i = j;
        } else {
            r.push(v[i]);
            proof {
                assert(v@.skip(i as int).skip(1) =~= v@.skip(i + 1 as int));
                assert(r@ + spec_collapse_ws(v@.skip(i + 1 as int)) =~= r0 + (seq![v@[i as int]]
                    + spec_collapse_ws(v@.skip(i + 1 as int))));
            }
            i += 1;
        }
    }
    assert(v@.skip(v@.len() as int) =~= Seq::<char>::empty());
    assert(r@ =~= r@ + spec_collapse_ws(v@.skip(v@.len() as int)));
    r
}

/// Relates a whitespace run measured inside a suffix to one measured in
/// the whole sequence.
proof fn lemma_space_run_end_skip(h: Seq<char>, i: int)
    requires
        0 <= i <= h.len(),
    ensures
        spec_space_run_end(h.skip(i), 0) == spec_space_run_end(h, i) - i,
    decreases h.len() - i,
{
    if i == h.len() || !spec_is_space(h[i]) {
    } else {
        lemma_space_run_end_skip(h, i + 1);
        assert(h.skip(i).skip(1) =~= h.skip(i + 1));
        lemma_space_run_shift(h.skip(i));
    }
}

/// One unrolling of the run computation on a suffix.
proof fn lemma_space_run_shift(s: Seq<char>)
    requires
        s.len() > 0,
        spec_is_space(s[0]),
    ensures
        spec_space_run_end(s, 0) == 1 + spec_space_run_end(s.skip(1), 0),
    decreases s.len(),
{
    lemma_space_run_end_ge(s.skip(1), 0);
    lemma_space_run_end_shift_rec(s, 1);
}

proof fn lemma_space_run_end_ge(s: Seq<char>, i: int)
    requires
        0 <= i <= s.len(),
    ensures
        i <= spec_space_run_end(s, i) <= s.len(),
    decreases s.len() - i,
{
    if i == s.len() || !spec_is_space(s[i]) {
    } else {
        lemma_space_run_end_ge(s, i + 1);
    }
}

proof fn lemma_space_run_end_shift_rec(s: Seq<char>, i: int)
    requires
        1 <= i <= s.len(),
    ensures
        spec_space_run_end(s, i) == 1 + spec_space_run_end(s.skip(1), i - 1),
    decreases s.len() - i,
{
    if i == s.len() || !spec_is_space(s[i]) {
        assert(s.skip(1).len() == s.len() - 1);
        if i < s.len() {
            assert(s.skip(1)[i - 1] == s[i]);
        }
    } else {
        assert(s.skip(1)[i - 1] == s[i]);
        lemma_space_run_end_shift_rec(s, i + 1);
    }
}

} // verus!

verus! {

/// A word character or a dot.
pub open spec fn spec_is_word_dot(c: char) -> bool {
    spec_is_word_char(c) || c == '.'
}

pub fn is_word_dot(c: char) -> (r: bool)
    ensures
        r == spec_is_word_dot(c),
{
    is_word_char(c) || c == '.'
}

/// The end of the run of word-or-dot characters starting at `i`.
pub open spec fn spec_word_dot_run_end(h: Seq<char>, i: int) -> int
    decreases h.len() - i when 0 <= i <= h.len()
{
    if i == h.len() || !spec_is_word_dot(h[i]) {
        i
    } else {
        spec_word_dot_run_end(h, i + 1)
    }
}

pub fn word_dot_run_end(v: &Vec<char>, i: usize) -> (r: usize)
    requires
        i <= v@.len(),
    ensures
        r == spec_word_dot_run_end(v@, i as int),
        i <= r <= v@.len(),
{
    let mut j: usize = i;
    while j < v.len() && is_word_dot(v[j])
        invariant
            i <= j <= v@.len(),
            spec_word_dot_run_end(v@, i as int) == spec_word_dot_run_end(v@, j as int),
        decreases v@.len() - j,
    {
        j += 1;
    }
    j
}

/// The start of the run of word characters that ends just before `e`.
pub open spec fn spec_back_word_run_start(h: Seq<char>, e: int) -> int
    decreases e when 0 <= e <= h.len()
{
    if e == 0 || !spec_is_word_char(h[e - 1]) {
        e
    } else {
        spec_back_word_run_start(h, e - 1)
    }
}

pub fn back_word_run_start(v: &Vec<char>, e: usize) -> (r: usize)
    requires
        e <= v@.len(),
    ensures
        r == spec_back_word_run_start(v@, e as int),
        r <= e,
{
    let mut j: usize = e;
    while j > 0 && is_word_char(v[j - 1])
        invariant
            j <= e <= v@.len(),
            spec_back_word_run_start(v@, e as int) == spec_back_word_run_start(v@, j as int),
        decreases j,
    {
        j -= 1;
    }
    j
}

/// The start of the run of whitespace characters that ends just before `e`.
pub open spec fn spec_back_space_run_start(h: Seq<char>, e: int) -> int
    decreases e when 0 <= e <= h.len()
{
    if e == 0 || !spec_is_space(h[e - 1]) {
        e
    } else {
        spec_back_space_run_start(h, e - 1)
    }
}

pub fn back_space_run_start(v: &Vec<char>, e: usize) -> (r: usize)
    requires
        e <= v@.len(),
    ensures
        r == spec_back_space_run_start(v@, e as int),
        r <= e,
{
    let mut j: usize = e;
    while j > 0 && is_space(v[j - 1])
        invariant
            j <= e <= v@.len(),
            spec_back_space_run_start(v@, e as int) == spec_back_space_run_start(v@, j as int),
        decreases j,
    {
        j -= 1;
    }
    j
}

} // verus!

verus! {

/// The end of the run of non-whitespace characters starting at `i`.
pub open spec fn spec_nonspace_run_end(h: Seq<char>, i: int) -> int
    decreases h.len() - i when 0 <= i <= h.len()
{
    if i == h.len() || spec_is_space(h[i]) {
        i
    } else {
        spec_nonspace_run_end(h, i + 1)
    }
}

pub fn nonspace_run_end(v: &Vec<char>, i: usize) -> (r: usize)
    requires
        i <= v@.len(),
    ensures
        r == spec_nonspace_run_end(v@, i as int),
        i <= r <= v@.len(),
{
    let mut j: usize = i;
    while j < v.len() && !is_space(v[j])
        invariant
            i <= j <= v@.len(),
            spec_nonspace_run_end(v@, i as int) == spec_nonspace_run_end(v@, j as int),
        decreases v@.len() - j,
    {
        j += 1;
    }
    j
}

proof fn lemma_nonspace_run_end_ge(s: Seq<char>, i: int)
    requires
        0 <= i <= s.len(),
    ensures
        i <= spec_nonspace_run_end(s, i) <= s.len(),
    decreases s.len() - i,
{
    if i == s.len() || spec_is_space(s[i]) {
    } else {
        lemma_nonspace_run_end_ge(s, i + 1);
    }
}

/// The whitespace-separated tokens of `s` from position `i` on: maximal
/// runs of non-whitespace characters, in order, none of them empty.
pub open spec fn spec_split_ws_from(s: Seq<char>, i: int) -> Seq<Seq<char>>
    decreases s.len() - i when 0 <= i via spec_split_ws_from_decreases
{
    if i >= s.len() {
        Seq::empty()
    } else if spec_is_space(s[i]) {
        spec_split_ws_from(s, i + 1)
    } else {
        seq![s.subrange(i, spec_nonspace_run_end(s, i))] + spec_split_ws_from(
            s,
            spec_nonspace_run_end(s, i),
        )
    }
}

#[via_fn]
proof fn spec_split_ws_from_decreases(s: Seq<char>, i: int) {
    if 0 <= i < s.len() && !spec_is_space(s[i]) {
        lemma_nonspace_run_end_ge(s, i + 1);
    }
}

/// The whitespace-separated tokens of `s`.
pub open spec fn spec_split_ws(s: Seq<char>) -> Seq<Seq<char>> {
    spec_split_ws_from(s, 0)
}

/// Splits into whitespace-separated tokens, per `spec_split_ws`.
pub fn split_ws(v: &Vec<char>) -> (r: Vec<String>)
    ensures
        crate::models::seq_view(r@) == spec_split_ws(v@),
{
    let mut r: Vec<String> = Vec::new();
    let mut i: usize = 0;
    assert(crate::models::seq_view(r@) + spec_split_ws_from(v@, 0) =~= spec_split_ws_from(v@, 0));
    while i < v.len()
        invariant
            i <= v@.len(),
            crate::models::seq_view(r@) + spec_split_ws_from(v@, i as int) == spec_split_ws(v@),
        decreases v@.len() - i,
    {
        let ghost r0 = crate::models::seq_view(r@);
        if is_space(v[i]) {
            i += 1;
        } else {
            let e = nonspace_run_end(v, i);
            r.push(chars_to_string(&sub_chars(v, i, e)));
            proof {
                assert(crate::models::seq_view(r@) =~= r0.push(v@.subrange(i as int, e as int)));
                assert(crate::models::seq_view(r@) + spec_split_ws_from(v@, e as int) =~= r0 + (seq![
                    v@.subrange(i as int, e as int),
                ] + spec_split_ws_from(v@, e as int)));
            }
            i = e;
        }
    }
    assert(crate::models::seq_view(r@) =~= crate::models::seq_view(r@) + spec_split_ws_from(
        v@,
        v@.len() as int,
    ));
    r
}

/// The least position at or after `from` holding character `c`.
pub open spec fn spec_find_char(h: Seq<char>, c: char, from: int) -> Option<int>
    decreases h.len() - from when 0 <= from
{
    if from >= h.len() {
        None
    } else if h[from] == c {
        Some(from)
    } else {
        spec_find_char(h, c, from + 1)
    }
}

pub fn find_char(v: &Vec<char>, c: char, from: usize) -> (r: Option<usize>)
    ensures
        match r {
            Some(i) => spec_find_char(v@, c, from as int) == Some(i as int) && from <= i < v.len(),
            None => spec_find_char(v@, c, from as int) is None,
        },
{
    let mut i: usize = from;
    while i < v.len()
        invariant
            from <= i,
            spec_find_char(v@, c, from as int) == spec_find_char(v@, c, i as int),
        decreases v@.len() - i,
    {
        if v[i] == c {
            return Some(i);
        }
        i += 1;
    }
    None
}

/// The pieces of `s` from position `i` on, split at every occurrence of
/// `c`; empty pieces are kept, as `str::split` keeps them.
pub open spec fn spec_split_char_from(s: Seq<char>, c: char, i: int) -> Seq<Seq<char>>
    decreases s.len() - i when 0 <= i via spec_split_char_from_decreases
{
    match spec_find_char(s, c, i) {
        None => seq![s.subrange(i, s.len() as int)],
        Some(j) => seq![s.subrange(i, j)] + spec_split_char_from(s, c, j + 1),
    }
}

#[via_fn]
proof fn spec_split_char_from_decreases(s: Seq<char>, c: char, i: int) {
    lemma_find_char_ge(s, c, i);
}

proof fn lemma_find_char_ge(s: Seq<char>, c: char, i: int)
    requires
        0 <= i,
    ensures
        spec_find_char(s, c, i) matches Some(j) ==> i <= j < s.len(),
    decreases s.len() - i,
{
    if i < s.len() && s[i] != c {
        lemma_find_char_ge(s, c, i + 1);
    }
}

/// The pieces of `s` split at every occurrence of `c`.
pub open spec fn spec_split_char(s: Seq<char>, c: char) -> Seq<Seq<char>> {
    spec_split_char_from(s, c, 0)
}

/// Splits at every occurrence of `c`, per `spec_split_char`.
pub fn split_char(v: &Vec<char>, c: char) -> (r: Vec<String>)
    ensures
        crate::models::seq_view(r@) == spec_split_char(v@, c),
{
    let mut r: Vec<String> = Vec::new();
    let mut i: usize = 0;
    assert(crate::models::seq_view(r@) + spec_split_char_from(v@, c, 0) =~= spec_split_char_from(
        v@,
        c,
        0,
    ));
    loop
        invariant
            i <= v@.len(),
            crate::models::seq_view(r@) + spec_split_char_from(v@, c, i as int) == spec_split_char(
                v@,
                c,
            ),
        decreases v@.len() - i + 1,
    {
        let ghost r0 = crate::models::seq_view(r@);
        match find_char(v, c, i) {
            Some(j) => {
                r.push(chars_to_string(&sub_chars(v, i, j)));
                proof {
                    lemma_find_char_ge(v@, c, i as int);
                    assert(crate::models::seq_view(r@) =~= r0.push(v@.subrange(i as int, j as int)));
                    assert(crate::models::seq_view(r@) + spec_split_char_from(v@, c, j + 1 as int)
                        =~= r0 + (seq![v@.subrange(i as int, j as int)] + spec_split_char_from(
                        v@,
                        c,
                        j + 1 as int,
                    )));
                }
                i = j + 1;
            },
            None => {
                r.push(chars_to_string(&sub_chars(v, i, v.len())));
                proof {
                    assert(crate::models::seq_view(r@) =~= r0.push(
                        v@.subrange(i as int, v@.len() as int),
                    ));
                    assert(crate::models::seq_view(r@) =~= r0 + seq![
                        v@.subrange(i as int, v@.len() as int),
                    ]);
                }
                return r;
            },
        }
    }
}

/// `s` split at the first occurrence of `c`: the part before it, and,
/// when `c` occurs at all, the part after it.
pub open spec fn spec_split_first(s: Seq<char>, c: char) -> (Seq<char>, Option<Seq<char>>) {
    match spec_find_char(s, c, 0) {
        None => (s, None),
        Some(j) => (s.subrange(0, j), Some(s.subrange(j + 1, s.len() as int))),
    }
}

/// Splits at the first occurrence of `c`, per `spec_split_first`.
pub fn split_first(v: &Vec<char>, c: char) -> (r: (String, Option<String>))
    ensures
        spec_split_first(v@, c).0 == r.0@,
        match r.1 {
            Some(t) => spec_split_first(v@, c).1 == Some(t@),
            None => spec_split_first(v@, c).1 is None,
        },
{
    match find_char(v, c, 0) {
        Some(j) => {
            proof {
                lemma_find_char_ge(v@, c, 0);
            }
            (
                chars_to_string(&sub_chars(v, 0, j)),
                Some(chars_to_string(&sub_chars(v, j + 1, v.len()))),
            )
        },
        None => {
            assert(v@.subrange(0, v@.len() as int) =~= v@);
            (chars_to_string(&sub_chars(v, 0, v.len())), None)
        },
    }
}

} // verus!

verus! {

/// A split yields at least one piece.
pub proof fn lemma_split_char_from_len(s: Seq<char>, c: char, i: int)
    requires
        0 <= i,
    ensures
        spec_split_char_from(s, c, i).len() >= 1,
{
}

} // verus!

verus! {

/// The space-separated tokens of `s`, keeping text inside double quotes
/// together; the quotes stay in the token.
pub open spec fn spec_split_quoted_from(
    s: Seq<char>,
    i: int,
    cur: Seq<char>,
    in_q: bool,
) -> Seq<Seq<char>>
    decreases s.len() - i when 0 <= i
{
    if i >= s.len() {
        if cur.len() > 0 {
            seq![cur]
        } else {
            Seq::empty()
        }
    } else if s[i] == '"' {
        spec_split_quoted_from(s, i + 1, cur.push('"'), !in_q)
    } else if s[i] == ' ' && !in_q {
        if cur.len() > 0 {
            seq![cur] + spec_split_quoted_from(s, i + 1, Seq::empty(), in_q)
        } else {
            spec_split_quoted_from(s, i + 1, Seq::empty(), in_q)
        }
    } else {
        spec_split_quoted_from(s, i + 1, cur.push(s[i]), in_q)
    }
}

pub open spec fn spec_split_quoted(s: Seq<char>) -> Seq<Seq<char>> {
    spec_split_quoted_from(s, 0, Seq::empty(), false)
}

/// Splits into space-separated tokens keeping quoted text together, per
/// `spec_split_quoted`.
pub fn split_quoted(v: &Vec<char>) -> (r: Vec<String>)
    ensures
        crate::models::seq_view(r@) == spec_split_quoted(v@),
{
    let mut r: Vec<String> = Vec::new();
    let mut cur: Vec<char> = Vec::new();
    let mut in_q: bool = false;
    let mut i: usize = 0;
    assert(crate::models::seq_view(r@) =~= Seq::<Seq<char>>::empty());
    assert(cur@ =~= Seq::<char>::empty());
    while i < v.len()
        invariant
            i <= v@.len(),
            crate::models::seq_view(r@) + spec_split_quoted_from(v@, i as int, cur@, in_q)
                == spec_split_quoted(v@),
        decreases v@.len() - i,
    {
        let ghost r0 = crate::models::seq_view(r@);
        let ghost cur0 = cur@;
        let ghost inq0 = in_q;
        let c = v[i];
        if c == '"' {
            cur.push('"');
            in_q = !in_q;
            proof {
                assert(spec_split_quoted_from(v@, i as int, cur0, inq0) == spec_split_quoted_from(
                    v@,
                    i + 1 as int,
                    cur0.push('"'),
                    !inq0,
                ));
            }
        } else if c == ' ' && !in_q {
            if cur.len() == 0 {
                proof {
                    assert(cur@ =~= Seq::<char>::empty());
                }
            }
            if cur.len() > 0 {
                r.push(chars_to_string(&cur));
                cur = Vec::new();
                proof {
                    assert(crate::models::seq_view(r@) =~= r0.push(r@.last()@));
                    assert(crate::models::seq_view(r@) + spec_split_quoted_from(
                        v@,
                        i + 1 as int,
                        Seq::empty(),
                        in_q,
                    ) =~= r0 + (seq![r@.last()@] + spec_split_quoted_from(
                        v@,
                        i + 1 as int,
                        Seq::empty(),
                        in_q,
                    )));
                }
            }
        } else {
            cur.push(c);
            proof {
                assert(spec_split_quoted_from(v@, i as int, cur0, inq0) == spec_split_quoted_from(
                    v@,
                    i + 1 as int,
                    cur0.push(v@[i as int]),
                    inq0,
                ));
            }
        }
        i += 1;
    }
    if cur.len() > 0 {
        let ghost r0 = crate::models::seq_view(r@);
        r.push(chars_to_string(&cur));
        proof {
            assert(crate::models::seq_view(r@) =~= r0.push(r@.last()@));
            assert(crate::models::seq_view(r@) =~= r0 + seq![r@.last()@]);
        }
    } else {
        proof {
            assert(crate::models::seq_view(r@) =~= crate::models::seq_view(r@)
                + Seq::<Seq<char>>::empty());
        }
    }
    r
}

/// Tokens joined with single spaces.
pub open spec fn spec_join_space(toks: Seq<Seq<char>>) -> Seq<char>
    decreases toks.len(),
{
    if toks.len() == 0 {
        Seq::empty()
    } else if toks.len() == 1 {
        toks[0]
    } else {
        spec_join_space(toks.drop_last()) + seq![' '] + toks.last()
    }
}

/// Joins tokens with single spaces, per `spec_join_space`.
pub fn join_space(toks: &Vec<String>) -> (r: String)
    ensures
        r@ == spec_join_space(crate::models::seq_view(toks@)),
{
    let mut r = String::new();
    let mut i: usize = 0;
    while i < toks.len()
        invariant
            i <= toks@.len(),
            crate::models::seq_view(toks@).len() == toks@.len(),
            r@ == spec_join_space(crate::models::seq_view(toks@).take(i as int)),
        decreases toks@.len() - i,
    {
        if i > 0 {
            r.append(" ");
        }
        r.append(toks[i].as_str());
        proof {
            reveal_strlit(" ");
            let tv = crate::models::seq_view(toks@);
            assert(" "@ =~= seq![' ']);
            assert(tv[i as int] == toks@[i as int]@);
            assert(tv.take(i + 1 as int).drop_last() =~= tv.take(i as int));
            if i == 0 {
                assert(r@ =~= tv[0]);
            } else {
                assert(r@ =~= spec_join_space(tv.take(i as int)) + seq![' '] + tv[i as int]);
            }
        }
        i += 1;
    }
    proof {
        let tv = crate::models::seq_view(toks@);
        assert(tv.take(tv.len() as int) =~= tv);
    }
    r
}

/// The greatest position at or before `from` holding character `c`.
pub open spec fn spec_rfind_char(h: Seq<char>, c: char, from: int) -> Option<int>
    decreases from + 1 when from < h.len()
{
    if from < 0 {
        None
    } else if h[from] == c {
        Some(from)
    } else {
        spec_rfind_char(h, c, from - 1)
    }
}

/// The greatest position holding `c`, searching the whole sequence.
pub fn rfind_char(v: &Vec<char>, c: char) -> (r: Option<usize>)
    ensures
        match r {
            Some(i) => spec_rfind_char(v@, c, v@.len() - 1) == Some(i as int) && i < v.len(),
            None => v@.len() == 0 || spec_rfind_char(v@, c, v@.len() - 1) is None,
        },
{
    if v.len() == 0 {
        return None;
    }
    let mut i: usize = v.len();
    while i > 0
        invariant
            i <= v@.len(),
            v@.len() > 0,
            spec_rfind_char(v@, c, v@.len() - 1) == spec_rfind_char(v@, c, i - 1),
        decreases i,
    {
        if v[i - 1] == c {
            return Some(i - 1);
        }
        i -= 1;
    }
    None
}

/// Every occurrence of `from` replaced by `to`.
pub open spec fn spec_replace_char(s: Seq<char>, from: char, to: char) -> Seq<char> {
    s.map_values(|c: char| if c == from { to } else { c })
}

pub fn replace_char(v: &Vec<char>, from: char, to: char) -> (r: Vec<char>)
    ensures
        r@ == spec_replace_char(v@, from, to),
{
    let mut r: Vec<char> = Vec::new();
    let mut i: usize = 0;
    while i < v.len()
        invariant
            i <= v@.len(),
            r@ == spec_replace_char(v@.take(i as int), from, to),
        decreases v@.len() - i,
    {
        if v[i] == from {
            r.push(to);
        } else {
            r.push(v[i]);
        }
        proof {
            assert(spec_replace_char(v@.take(i + 1 as int), from, to) =~= spec_replace_char(
                v@.take(i as int),
                from,
                to,
            ).push(if v@[i as int] == from { to } else { v@[i as int] }));
        }
        i += 1;
    }
    assert(v@.take(v@.len() as int) =~= v@);
    r
}

} // verus!

verus! {

/// What a successful character search gives: a position within bounds.
pub proof fn lemma_find_char_ge_pub(s: Seq<char>, c: char, i: int)
    requires
        0 <= i,
    ensures
        spec_find_char(s, c, i) matches Some(j) ==> i <= j < s.len(),
    decreases s.len() - i,
{
    if i < s.len() && s[i] != c {
        lemma_find_char_ge_pub(s, c, i + 1);
    }
}

} // verus!
