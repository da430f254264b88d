//! Character-level text helpers shared by the lifters and the generators.
//!
//! All executable routines work on `Vec<char>`, whose view is the same
//! `Seq<char>` that `String` and `&str` views use, so every contract here is
//! stated over `Seq<char>` directly.

use vstd::prelude::*;

verus! {

// ---------------------------------------------------------------------------
// Character classes
// ---------------------------------------------------------------------------

pub open spec fn is_space_char(c: char) -> bool {
    c == ' ' || c == '\t' || c == '\r' || c == '\n'
}

pub open spec fn is_digit_char(c: char) -> bool {
    '0' <= c && c <= '9'
}

pub open spec fn is_word_char(c: char) -> bool {
    is_digit_char(c) || ('a' <= c && c <= 'z') || ('A' <= c && c <= 'Z') || c == '_'
}

/// One character, lowered: ASCII upper-case letters map to the corresponding
/// lower-case letter, every other character is unchanged.
pub open spec fn lower_char(c: char) -> char {
    if 'A' <= c && c <= 'Z' {
        (((c as u8) + 32) as char)
    } else {
        c
    }
}

/// A whole sequence, lowered character by character.
pub open spec fn lower_seq(s: Seq<char>) -> Seq<char> {
    s.map_values(|c: char| lower_char(c))
}

pub fn is_space(c: char) -> (r: bool)
    ensures
        r == is_space_char(c),
{
    c == ' ' || c == '\t' || c == '\r' || c == '\n'
}

pub fn is_digit(c: char) -> (r: bool)
    ensures
        r == is_digit_char(c),
{
    '0' <= c && c <= '9'
}

pub fn is_word(c: char) -> (r: bool)
    ensures
        r == is_word_char(c),
{
    is_digit(c) || ('a' <= c && c <= 'z') || ('A' <= c && c <= 'Z') || c == '_'
}

pub fn lower(c: char) -> (r: char)
    ensures
        r == lower_char(c),
{
    if 'A' <= c && c <= 'Z' {
        ((c as u8) + 32) as char
    } else {
        c
    }
}

// ---------------------------------------------------------------------------
// Matching and searching
// ---------------------------------------------------------------------------

/// `pat` occurs in `s` starting at index `i`.
pub open spec fn match_at(s: Seq<char>, pat: Seq<char>, i: int) -> bool {
    &&& 0 <= i
    &&& i + pat.len() <= s.len()
    &&& forall|k: int| 0 <= k < pat.len() ==> s[i + k] == pat[k]
}

/// Case-insensitive variant of `match_at`.
pub open spec fn match_at_ci(s: Seq<char>, pat: Seq<char>, i: int) -> bool {
    &&& 0 <= i
    &&& i + pat.len() <= s.len()
    &&& forall|k: int| 0 <= k < pat.len() ==> lower_char(s[i + k]) == lower_char(pat[k])
}

/// Index of the first occurrence of `pat` in `s` at or after `from`.
pub open spec fn find_idx(s: Seq<char>, pat: Seq<char>, from: int) -> Option<int>
    decreases s.len() - from,
{
    if from < 0 || from + pat.len() > s.len() {
        None
    } else if match_at(s, pat, from) {
        Some(from)
    } else {
        find_idx(s, pat, from + 1)
    }
}

/// Index of the first case-insensitive occurrence of `pat` in `s` at or after `from`.
pub open spec fn find_idx_ci(s: Seq<char>, pat: Seq<char>, from: int) -> Option<int>
    decreases s.len() - from,
{
    if from < 0 || from + pat.len() > s.len() {
        None
    } else if match_at_ci(s, pat, from) {
        Some(from)
    } else {
        find_idx_ci(s, pat, from + 1)
    }
}

pub open spec fn contains_sub(s: Seq<char>, pat: Seq<char>) -> bool {
    find_idx(s, pat, 0) is Some
}

pub proof fn lemma_find_idx_some(s: Seq<char>, pat: Seq<char>, from: int)
    requires
        find_idx(s, pat, from) is Some,
    ensures
        match_at(s, pat, find_idx(s, pat, from)->Some_0),
        find_idx(s, pat, from)->Some_0 >= from,
    decreases s.len() - from,
{
    if from < 0 || from + pat.len() > s.len() {
    } else if match_at(s, pat, from) {
    } else {
        lemma_find_idx_some(s, pat, from + 1);
    }
}

pub proof fn lemma_find_idx_ci_some(s: Seq<char>, pat: Seq<char>, from: int)
    requires
        find_idx_ci(s, pat, from) is Some,
    ensures
        match_at_ci(s, pat, find_idx_ci(s, pat, from)->Some_0),
        find_idx_ci(s, pat, from)->Some_0 >= from,
    decreases s.len() - from,
{
    if from < 0 || from + pat.len() > s.len() {
    } else if match_at_ci(s, pat, from) {
    } else {
        lemma_find_idx_ci_some(s, pat, from + 1);
    }
}

pub proof fn lemma_match_implies_find(s: Seq<char>, pat: Seq<char>, from: int, i: int)
    requires
        from >= 0,
        i >= from,
        match_at(s, pat, i),
    ensures
        find_idx(s, pat, from) is Some,
    decreases i - from,
{
    if from == i {
    } else if match_at(s, pat, from) {
    } else {
        lemma_match_implies_find(s, pat, from + 1, i);
    }
}

/// Case-sensitive search, exact mirror of `find_idx`.
pub fn find(s: &Vec<char>, pat: &Vec<char>, from: usize) -> (r: Option<usize>)
    ensures
        match r {
            Some(i) => from <= i && find_idx(s@, pat@, from as int) == Some(i as int),
            None => find_idx(s@, pat@, from as int) is None,
        },
{
    let mut i: usize = from;
    loop
        invariant
            from <= i,
            find_idx(s@, pat@, from as int) == find_idx(s@, pat@, i as int),
        decreases s@.len() + 1 - i,
    {
        if i > s.len() || pat.len() > s.len() - i {
            assert(find_idx(s@, pat@, i as int) is None);
            return None;
        }
        if match_here(s, pat, i) {
            return Some(i);
        }
        assert(find_idx(s@, pat@, i as int) == find_idx(s@, pat@, i + 1 as int));
        i = i + 1;
    }
}

/// Case-insensitive search, exact mirror of `find_idx_ci`.
pub fn find_ci(s: &Vec<char>, pat: &Vec<char>, from: usize) -> (r: Option<usize>)
    ensures
        match r {
            Some(i) => from <= i && find_idx_ci(s@, pat@, from as int) == Some(i as int),
            None => find_idx_ci(s@, pat@, from as int) is None,
        },
{
    let mut i: usize = from;
    loop
        invariant
            from <= i,
            find_idx_ci(s@, pat@, from as int) == find_idx_ci(s@, pat@, i as int),
        decreases s@.len() + 1 - i,
    {
        if i > s.len() || pat.len() > s.len() - i {
            assert(find_idx_ci(s@, pat@, i as int) is None);
            return None;
        }
        if match_here_ci(s, pat, i) {
            return Some(i);
        }
        assert(find_idx_ci(s@, pat@, i as int) == find_idx_ci(s@, pat@, i + 1 as int));
        i = i + 1;
    }
}

/// Does `pat` occur at index `i` of `s`?
pub fn match_here(s: &Vec<char>, pat: &Vec<char>, i: usize) -> (r: bool)
    ensures
        r == match_at(s@, pat@, i as int),
{
    if i > s.len() || pat.len() > s.len() - i {
        return false;
    }
    let n: usize = s.len();
    let mut k: usize = 0;
    while k < pat.len()
        invariant
            n == s@.len(),
            i + pat@.len() <= n,
            k <= pat@.len(),
            forall|m: int| 0 <= m < k ==> s@[i + m] == pat@[m],
        decreases pat@.len() - k,
    {
        if s[i + k] != pat[k] {
            return false;
        }
        k = k + 1;
    }
    true
}

/// Does `pat` occur case-insensitively at index `i` of `s`?
pub fn match_here_ci(s: &Vec<char>, pat: &Vec<char>, i: usize) -> (r: bool)
    ensures
        r == match_at_ci(s@, pat@, i as int),
{
    if i > s.len() || pat.len() > s.len() - i {
        return false;
    }
    let n: usize = s.len();
    let mut k: usize = 0;
    while k < pat.len()
        invariant
            n == s@.len(),
            i + pat@.len() <= n,
            k <= pat@.len(),
            forall|m: int| 0 <= m < k ==> lower_char(s@[i + m]) == lower_char(pat@[m]),
        decreases pat@.len() - k,
    {
        if lower(s[i + k]) != lower(pat[k]) {
            return false;
        }
        k = k + 1;
    }
    true
}

pub fn contains(s: &Vec<char>, pat: &Vec<char>) -> (r: bool)
    ensures
        r == contains_sub(s@, pat@),
{
    find(s, pat, 0).is_some()
}

pub fn starts_with(s: &Vec<char>, pat: &Vec<char>) -> (r: bool)
    ensures
        r == match_at(s@, pat@, 0),
{
    match_here(s, pat, 0)
}

/// `s` ends with `pat`.
pub open spec fn ends_with_spec(s: Seq<char>, pat: Seq<char>) -> bool {
    match_at(s, pat, s.len() - pat.len())
}

pub fn ends_with(s: &Vec<char>, pat: &Vec<char>) -> (r: bool)
    ensures
        r == ends_with_spec(s@, pat@),
{
    if pat.len() > s.len() {
        return false;
    }
    match_here(s, pat, s.len() - pat.len())
}

pub fn seq_eq(a: &Vec<char>, b: &Vec<char>) -> (r: bool)
    ensures
        r == (a@ == b@),
{
    if a.len() != b.len() {
        return false;
    }
    let mut k: usize = 0;
    while k < a.len()
        invariant
            a@.len() == b@.len(),
            k <= a@.len(),
            forall|m: int| 0 <= m < k ==> a@[m] == b@[m],
        decreases a@.len() - k,
    {
        if a[k] != b[k] {
            return false;
        }
        k = k + 1;
    }
    assert(a@ =~= b@);
    true
}

// ---------------------------------------------------------------------------
// Conversions between String/&str and Vec<char>
// ---------------------------------------------------------------------------

/// Relies on `String::push`: appends the given character to the end of the string.
#[verifier::external_body]
pub fn push_char(out: &mut String, c: char)
    ensures
        final(out)@ == old(out)@ + seq![c],
{
    out.push(c);
}

/// Builds the `String` whose characters are exactly those of `v`, in order.
pub fn chars_to_string(v: &Vec<char>) -> (r: String)
    ensures
        r@ == v@,
{
    let mut out = String::new();
    let mut i: usize = 0;
    while i < v.len()
        invariant
            i <= v@.len(),
            out@ == v@.subrange(0, i as int),
        decreases v@.len() - i,
    {
        push_char(&mut out, v[i]);
        assert(out@ =~= v@.subrange(0, i + 1 as int));
        i = i + 1;
    }
    assert(out@ =~= v@);
    out
}

/// Collects the characters of a `&str` into a vector with the same view.
pub fn str_chars(s: &str) -> (r: Vec<char>)
    ensures
        r@ == s@,
{
    let n = s.unicode_len();
    let mut out: Vec<char> = Vec::new();
    let mut i: usize = 0;
    while i < n
        invariant
            n == s@.len(),
            i <= n,
            out@ == s@.subrange(0, i as int),
        decreases n - i,
    {
        out.push(s.get_char(i));
        assert(out@ =~= s@.subrange(0, i + 1 as int));
        i = i + 1;
    }
    assert(out@ =~= s@);
    out
}

/// Appends every character of `s` to `out`.
pub fn push_str_chars(out: &mut Vec<char>, s: &str)
    ensures
        final(out)@ == old(out)@ + s@,
{
    let n = s.unicode_len();
    let mut i: usize = 0;
    while i < n
        invariant
            n == s@.len(),
            i <= n,
            out@ == old(out)@ + s@.subrange(0, i as int),
        decreases n - i,
    {
        out.push(s.get_char(i));
        assert(out@ =~= old(out)@ + s@.subrange(0, i + 1 as int));
        i = i + 1;
    }
    assert(out@ =~= old(out)@ + s@);
}

/// Appends `s@.subrange(a, b)` to `out`.
pub fn push_range(out: &mut Vec<char>, s: &Vec<char>, a: usize, b: usize)
    requires
        a <= b,
        b <= s@.len(),
    ensures
        final(out)@ == old(out)@ + s@.subrange(a as int, b as int),
{
    let mut i: usize = a;
    while i < b
        invariant
            a <= i <= b <= s@.len(),
            out@ == old(out)@ + s@.subrange(a as int, i as int),
        decreases b - i,
    {
        out.push(s[i]);
        assert(out@ =~= old(out)@ + s@.subrange(a as int, i + 1 as int));
        i = i + 1;
    }
}

/// The sub-vector `s@.subrange(a, b)` as a fresh vector.
pub fn sub_vec(s: &Vec<char>, a: usize, b: usize) -> (r: Vec<char>)
    requires
        a <= b,
        b <= s@.len(),
    ensures
        r@ == s@.subrange(a as int, b as int),
{
    let mut out: Vec<char> = Vec::new();
    push_range(&mut out, s, a, b);
    assert(out@ =~= s@.subrange(a as int, b as int));
    out
}

/// Lowers every character of `s`.
pub fn to_lower(s: &Vec<char>) -> (r: Vec<char>)
    ensures
        r@ == lower_seq(s@),
{
    let mut out: Vec<char> = Vec::new();
    let mut i: usize = 0;
    while i < s.len()
        invariant
            i <= s@.len(),
            out@ == lower_seq(s@.subrange(0, i as int)),
        decreases s@.len() - i,
    {
        out.push(lower(s[i]));
        assert(out@ =~= lower_seq(s@.subrange(0, i + 1 as int))) by {
            assert(s@.subrange(0, i + 1 as int) =~= s@.subrange(0, i as int).push(s@[i as int]));
            assert(lower_seq(s@.subrange(0, i as int).push(s@[i as int]))
                =~= lower_seq(s@.subrange(0, i as int)).push(lower_char(s@[i as int])));
        }
        i = i + 1;
    }
    assert(s@.subrange(0, s@.len() as int) =~= s@);
    out
}

// ---------------------------------------------------------------------------
// Replacement
// ---------------------------------------------------------------------------

/// Every non-overlapping occurrence of `pat` in `s`, scanned left to right,
/// replaced by `rep`.
pub open spec fn replace_all(s: Seq<char>, pat: Seq<char>, rep: Seq<char>) -> Seq<char>
    decreases s.len(),
{
    if pat.len() == 0 || s.len() < pat.len() {
        s
    } else if match_at(s, pat, 0) {
        rep + replace_all(s.skip(pat.len() as int), pat, rep)
    } else {
        seq![s[0]] + replace_all(s.skip(1), pat, rep)
    }
}

pub fn replace(s: &Vec<char>, pat: &Vec<char>, rep: &Vec<char>) -> (r: Vec<char>)
    requires
        pat@.len() > 0,
    ensures
        r@ == replace_all(s@, pat@, rep@),
{
    let n: usize = s.len();
    let plen: usize = pat.len();
    let mut out: Vec<char> = Vec::new();
    let mut i: usize = 0;
    proof {
        assert(s@.skip(0) =~= s@);
        assert(out@ + replace_all(s@, pat@, rep@) =~= replace_all(s@, pat@, rep@));
    }
    while i < n && plen <= n - i
        invariant
            n == s@.len(),
            plen == pat@.len(),
            plen > 0,
            i <= n,
            replace_all(s@, pat@, rep@) == out@ + replace_all(s@.skip(i as int), pat@, rep@),
        decreases n - i,
    {
        proof {
            assert(s@.skip(i as int).len() == n - i);
        }
        if match_here(s, pat, i) {
            proof {
                assert(match_at(s@.skip(i as int), pat@, 0)) by {
                    assert(forall|k: int|
                        0 <= k < pat@.len() ==> s@.skip(i as int)[k] == s@[i + k]);
                }
                assert(s@.skip(i as int).skip(plen as int) =~= s@.skip(i + plen as int));
            }
            let ghost before = out@;
            let mut k: usize = 0;
            while k < rep.len()
                invariant
                    k <= rep@.len(),
                    out@ == before + rep@.subrange(0, k as int),
                decreases rep@.len() - k,
            {
                out.push(rep[k]);
                assert(out@ =~= before + rep@.subrange(0, k + 1 as int));
                k = k + 1;
            }
            assert(out@ =~= before + rep@);
            proof {
                assert(out@ + replace_all(s@.skip(i + plen as int), pat@, rep@)
                    =~= before + (rep@ + replace_all(s@.skip(i as int).skip(plen as int), pat@, rep@)));
            }
            i = i + plen;
        } else {
            proof {
                assert(!match_at(s@.skip(i as int), pat@, 0)) by {
                    assert(forall|k: int|
                        0 <= k < pat@.len() ==> s@.skip(i as int)[k] == s@[i + k]);
                }
                assert(s@.skip(i as int).skip(1) =~= s@.skip(i + 1 as int));
                assert(s@.skip(i as int)[0] == s@[i as int]);
            }
            out.push(s[i]);
            proof {
                assert(out@ + replace_all(s@.skip(i + 1 as int), pat@, rep@)
                    =~= (out@.drop_last() + (seq![s@[i as int]]
                        + replace_all(s@.skip(i as int).skip(1), pat@, rep@))));
            }
            i = i + 1;
        }
    }
    // the tail is shorter than the pattern and is copied through unchanged
    proof {
        assert(s@.skip(i as int).len() < plen || pat@.len() == 0 || i + plen > n);
    }
    let ghost before = out@;
    let mut j: usize = i;
    while j < n
        invariant
            n == s@.len(),
            i <= j <= n,
            out@ == before + s@.subrange(i as int, j as int),
        decreases n - j,
    {
        out.push(s[j]);
        assert(out@ =~= before + s@.subrange(i as int, j + 1 as int));
        j = j + 1;
    }
    proof {
        assert(s@.skip(i as int).len() < plen);
        assert(replace_all(s@.skip(i as int), pat@, rep@) == s@.skip(i as int));
        assert(s@.subrange(i as int, n as int) =~= s@.skip(i as int));
        assert(out@ =~= before + s@.skip(i as int));
    }
    out
}

// ---------------------------------------------------------------------------
// Trimming
// ---------------------------------------------------------------------------

pub open spec fn trim_start_spec(s: Seq<char>) -> Seq<char>
    decreases s.len(),
{
    if s.len() > 0 && is_space_char(s[0]) {
        trim_start_spec(s.skip(1))
    } else {
        s
    }
}

pub open spec fn trim_end_spec(s: Seq<char>) -> Seq<char>
    decreases s.len(),
{
    if s.len() > 0 && is_space_char(s.last()) {
        trim_end_spec(s.drop_last())
    } else {
        s
    }
}

/// `s` with leading and trailing whitespace removed.
pub open spec fn trim_spec(s: Seq<char>) -> Seq<char> {
    trim_end_spec(trim_start_spec(s))
}

proof fn lemma_trim_start_at(s: Seq<char>, a: int)
    requires
        0 <= a <= s.len(),
        forall|i: int| 0 <= i < a ==> is_space_char(s[i]),
        a == s.len() || !is_space_char(s[a]),
    ensures
        trim_start_spec(s) == s.skip(a),
    decreases a,
{
    if a == 0 {
        assert(s.skip(0) =~= s);
    } else {
        lemma_trim_start_at(s.skip(1), a - 1);
        assert(s.skip(1).skip(a - 1) =~= s.skip(a));
    }
}

proof fn lemma_trim_end_at(s: Seq<char>, b: int)
    requires
        0 <= b <= s.len(),
        forall|j: int| b <= j < s.len() ==> is_space_char(s[j]),
        b == 0 || !is_space_char(s[b - 1]),
    ensures
        trim_end_spec(s) == s.take(b),
    decreases s.len() - b,
{
    if b == s.len() {
        assert(s.take(b) =~= s);
    } else {
        lemma_trim_end_at(s.drop_last(), b);
        assert(s.drop_last().take(b) =~= s.take(b));
    }
}

pub fn trim(s: &Vec<char>) -> (r: Vec<char>)
    ensures
        r@ == trim_spec(s@),
{
    let n: usize = s.len();
    let mut a: usize = 0;
    while a < n && is_space(s[a])
        invariant
            n == s@.len(),
            a <= n,
            forall|i: int| 0 <= i < a ==> is_space_char(s@[i]),
        decreases n - a,
    {
        a = a + 1;
    }
    let mut b: usize = n;
    while b > a && is_space(s[b - 1])
        invariant
            n == s@.len(),
            a <= b <= n,
            forall|j: int| b <= j < n ==> is_space_char(s@[j]),
        decreases b,
    {
        b = b - 1;
    }
    proof {
        lemma_trim_start_at(s@, a as int);
        lemma_trim_end_at(s@.skip(a as int), b - a);
        assert(s@.skip(a as int).take(b - a) =~= s@.subrange(a as int, b as int));
    }
    sub_vec(s, a, b)
}

// ---------------------------------------------------------------------------
// Splitting into lines and on separators
// ---------------------------------------------------------------------------

/// A line with one trailing carriage return removed.
pub open spec fn strip_cr(l: Seq<char>) -> Seq<char> {
    if l.len() > 0 && l.last() == '\r' {
        l.drop_last()
    } else {
        l
    }
}

/// The lines of `s`: pieces separated by `'\n'`, each piece before a newline
/// with a trailing `'\r'` removed, and no final empty piece after a trailing
/// newline.
pub open spec fn lines_spec(s: Seq<char>) -> Seq<Seq<char>>
    decreases s.len(),
{
    if s.len() == 0 {
        Seq::empty()
    } else {
        let r = find_idx(s, seq!['\n'], 0);
        if r is Some && 0 <= r->Some_0 < s.len() {
            seq![strip_cr(s.subrange(0, r->Some_0))] + lines_spec(s.skip(r->Some_0 + 1))
        } else {
            seq![s]
        }
    }
}

/// The pieces of `s` separated by the character `sep` (no piece is dropped).
pub open spec fn split_spec(s: Seq<char>, sep: char) -> Seq<Seq<char>>
    decreases s.len(),
{
    let r = find_idx(s, seq![sep], 0);
    if r is Some && 0 <= r->Some_0 < s.len() {
        seq![s.subrange(0, r->Some_0)] + split_spec(s.skip(r->Some_0 + 1), sep)
    } else {
        seq![s]
    }
}

pub fn strip_cr_exec(l: Vec<char>) -> (r: Vec<char>)
    ensures
        r@ == strip_cr(l@),
{
    let mut l = l;
    if l.len() > 0 && l[l.len() - 1] == '\r' {
        l.pop();
    }
    l
}

pub fn lines(s: &Vec<char>) -> (r: Vec<Vec<char>>)
    ensures
        r@.map_values(|l: Vec<char>| l@) == lines_spec(s@),
{
    let n: usize = s.len();
    let mut out: Vec<Vec<char>> = Vec::new();
    let mut i: usize = 0;
    let nl: Vec<char> = vec!['\n'];
    assert(nl@ =~= seq!['\n']);
    proof {
        assert(s@.skip(0) =~= s@);
        assert(out@.map_values(|l: Vec<char>| l@) + lines_spec(s@) =~= lines_spec(s@));
    }
    while i < n
        invariant
            n == s@.len(),
            nl@ == seq!['\n'],
            i <= n,
            lines_spec(s@) == out@.map_values(|l: Vec<char>| l@) + lines_spec(s@.skip(i as int)),
        decreases n - i,
    {
        let ghost pre = out@.map_values(|l: Vec<char>| l@);
        let piece_end: usize;
        let next: usize;
        match find(s, &nl, i) {
            Some(j) => {
                proof {
                    lemma_find_idx_some(s@, nl@, i as int);
                    assert(match_at(s@.skip(i as int), nl@, j - i)) by {
                        assert(forall|k: int| 0 <= k < nl@.len()
                            ==> #[trigger] s@.skip(i as int)[j - i + k] == s@[j + k]);
                    }
                    lemma_match_implies_find(s@.skip(i as int), nl@, 0, j - i);
                    lemma_find_idx_shift(s@, nl@, i as int, j - i);
                }
                piece_end = j;
                next = j + 1;
            }
            None => {
                proof {
                    lemma_find_idx_shift_none(s@, nl@, i as int);
                }
                piece_end = n;
                next = n;
            }
        }
        let piece = sub_vec(s, i, piece_end);
        if piece_end < n {
            let stripped = strip_cr_exec(piece);
            out.push(stripped);
            proof {
                assert(s@.skip(i as int).subrange(0, piece_end - i) =~= s@.subrange(
                    i as int, piece_end as int));
                assert(s@.skip(i as int).skip(piece_end - i + 1) =~= s@.skip(next as int));
                assert(out@.map_values(|l: Vec<char>| l@) =~= pre
                    + seq![strip_cr(s@.subrange(i as int, piece_end as int))]);
            }
        } else {
            out.push(piece);
            proof {
                assert(s@.skip(i as int) =~= s@.subrange(i as int, n as int));
                assert(out@.map_values(|l: Vec<char>| l@) =~= pre + seq![s@.skip(i as int)]);
            }
        }
        i = next;
    }
    proof {
        assert(s@.skip(i as int).len() == 0);
        assert(lines_spec(s@.skip(i as int)) =~= Seq::<Seq<char>>::empty());
        assert(out@.map_values(|l: Vec<char>| l@) =~= lines_spec(s@));
    }
    out
}

pub fn split(s: &Vec<char>, sep: char) -> (r: Vec<Vec<char>>)
    ensures
        r@.map_values(|l: Vec<char>| l@) == split_spec(s@, sep),
{
    let n: usize = s.len();
    let mut out: Vec<Vec<char>> = Vec::new();
    let mut i: usize = 0;
    let pat: Vec<char> = vec![sep];
    assert(pat@ =~= seq![sep]);
    proof {
        assert(s@.skip(0) =~= s@);
        assert(out@.map_values(|l: Vec<char>| l@) + split_spec(s@, sep) =~= split_spec(s@, sep));
    }
    loop
        invariant
            n == s@.len(),
            pat@ == seq![sep],
            i <= n,
            split_spec(s@, sep) == out@.map_values(|l: Vec<char>| l@)
                + split_spec(s@.skip(i as int), sep),
        decreases n - i,
    {
        let ghost pre = out@.map_values(|l: Vec<char>| l@);
        match find(s, &pat, i) {
            Some(j) => {
                proof {
                    lemma_find_idx_some(s@, pat@, i as int);
                    assert(match_at(s@.skip(i as int), pat@, j - i)) by {
                        assert(forall|k: int| 0 <= k < pat@.len()
                            ==> #[trigger] s@.skip(i as int)[j - i + k] == s@[j + k]);
                    }
                    lemma_match_implies_find(s@.skip(i as int), pat@, 0, j - i);
                    lemma_find_idx_shift(s@, pat@, i as int, j - i);
                }
                let piece = sub_vec(s, i, j);
                out.push(piece);
                proof {
                    assert(s@.skip(i as int).subrange(0, j - i) =~= s@.subrange(
                        i as int, j as int));
                    assert(s@.skip(i as int).skip(j - i + 1) =~= s@.skip(j + 1 as int));
                    assert(out@.map_values(|l: Vec<char>| l@) =~= pre
                        + seq![s@.subrange(i as int, j as int)]);
                }
                i = j + 1;
            }
            None => {
                proof {
                    lemma_find_idx_shift_none(s@, pat@, i as int);
                }
                let piece = sub_vec(s, i, n);
                out.push(piece);
                proof {
                    assert(s@.skip(i as int) =~= s@.subrange(i as int, n as int));
                    assert(out@.map_values(|l: Vec<char>| l@) =~= pre + seq![s@.skip(i as int)]);
                }
                return out;
            }
        }
    }
}

/// The first index of `pat` in `s` at or after `from`, re-based: searching the
/// suffix `s.skip(from)` finds the same occurrence.
proof fn lemma_find_idx_shift(s: Seq<char>, pat: Seq<char>, from: int, d: int)
    requires
        0 <= from <= s.len(),
        find_idx(s, pat, from) == Some(from + d),
        find_idx(s.skip(from), pat, 0) is Some,
    ensures
        find_idx(s.skip(from), pat, 0) == Some(d),
{
    lemma_find_idx_shift_general(s, pat, from, 0);
}

proof fn lemma_find_idx_shift_none(s: Seq<char>, pat: Seq<char>, from: int)
    requires
        0 <= from <= s.len(),
        find_idx(s, pat, from) is None,
    ensures
        find_idx(s.skip(from), pat, 0) is None,
{
    lemma_find_idx_shift_general(s, pat, from, 0);
}

/// Searching `s` from `from + k` and searching `s.skip(from)` from `k` agree.
proof fn lemma_find_idx_shift_general(s: Seq<char>, pat: Seq<char>, from: int, k: int)
    requires
        0 <= from <= s.len(),
        0 <= k,
    ensures
        match find_idx(s, pat, from + k) {
            Some(i) => find_idx(s.skip(from), pat, k) == Some(i - from),
            None => find_idx(s.skip(from), pat, k) is None,
        },
    decreases s.len() - k,
{
    let t = s.skip(from);
    if from + k + pat.len() > s.len() {
        assert(k + pat.len() > t.len());
    } else {
        assert(match_at(s, pat, from + k) == match_at(t, pat, k)) by {
            assert(forall|m: int| 0 <= m < pat.len() ==> #[trigger] pat[m] == pat[m] && t[k + m]
                == s[from + k + m]);
        }
        if match_at(s, pat, from + k) {
        } else {
            lemma_find_idx_shift_general(s, pat, from, k + 1);
        }
    }
}

// ---------------------------------------------------------------------------
// Decimal numbers
// ---------------------------------------------------------------------------

pub open spec fn digit_char_of(d: int) -> char
    recommends
        0 <= d < 10,
{
    ((('0' as u8) + (d as u8)) as char)
}

/// The decimal digits of a non-negative integer, most significant first.
pub open spec fn dec_rep(n: int) -> Seq<char>
    recommends
        n >= 0,
    decreases n,
{
    if n <= 0 {
        seq!['0']
    } else if n < 10 {
        seq![digit_char_of(n)]
    } else {
        dec_rep(n / 10) + seq![digit_char_of(n % 10)]
    }
}

/// The decimal rendering of an integer, with a leading minus sign if negative.
pub open spec fn int_dec(n: int) -> Seq<char> {
    if n < 0 {
        seq!['-'] + dec_rep(-n)
    } else {
        dec_rep(n)
    }
}

fn digit_char_exec(d: u8) -> (r: char)
    requires
        d < 10,
    ensures
        r == digit_char_of(d as int),
{
    (('0' as u8) + d) as char
}

pub fn u64_dec_chars(n: u64) -> (r: Vec<char>)
    ensures
        r@ == dec_rep(n as int),
    decreases n,
{
    if n < 10 {
        let mut v: Vec<char> = Vec::new();
        v.push(digit_char_exec(n as u8));
        assert(v@ =~= dec_rep(n as int));
        v
    } else {
        let mut v = u64_dec_chars(n / 10);
        v.push(digit_char_exec((n % 10) as u8));
        assert(v@ =~= dec_rep((n / 10) as int) + seq![digit_char_of((n % 10) as int)]);
        v
    }
}

pub fn u128_dec_chars(n: u128) -> (r: Vec<char>)
    ensures
        r@ == dec_rep(n as int),
    decreases n,
{
    if n < 10 {
        let mut v: Vec<char> = Vec::new();
        v.push(digit_char_exec(n as u8));
        assert(v@ =~= dec_rep(n as int));
        v
    } else {
        let mut v = u128_dec_chars(n / 10);
        v.push(digit_char_exec((n % 10) as u8));
        assert(v@ =~= dec_rep((n / 10) as int) + seq![digit_char_of((n % 10) as int)]);
        v
    }
}

pub fn i32_dec_chars(n: i32) -> (r: Vec<char>)
    ensures
        r@ == int_dec(n as int),
{
    if n < 0 {
        let m: u64 = (-(n as i64)) as u64;
        assert(m as int == -(n as int));
        let mut v: Vec<char> = Vec::new();
        v.push('-');
        let ds = u64_dec_chars(m);
        let mut k: usize = 0;
        while k < ds.len()
            invariant
                k <= ds@.len(),
                v@ == seq!['-'] + ds@.subrange(0, k as int),
            decreases ds@.len() - k,
        {
            v.push(ds[k]);
            assert(v@ =~= seq!['-'] + ds@.subrange(0, k + 1 as int));
            k = k + 1;
        }
        assert(v@ =~= seq!['-'] + ds@);
        v
    } else {
        u64_dec_chars(n as u64)
    }
}

// ---------------------------------------------------------------------------
// Integer literals
// ---------------------------------------------------------------------------

/// The value of a run of decimal digits (most significant first).
pub open spec fn digits_val(s: Seq<char>) -> int
    decreases s.len(),
{
    if s.len() == 0 {
        0
    } else {
        digits_val(s.drop_last()) * 10 + (s.last() as int - '0' as int)
    }
}

pub open spec fn all_digits(s: Seq<char>) -> bool {
    s.len() > 0 && forall|i: int| 0 <= i < s.len() ==> is_digit_char(s[i])
}

/// The integer denoted by `s` when `s` is an optional sign followed by one or
/// more decimal digits; `None` otherwise.
pub open spec fn int_literal_val(s: Seq<char>) -> Option<int> {
    if s.len() > 0 && (s[0] == '+' || s[0] == '-') {
        if all_digits(s.skip(1)) {
            if s[0] == '-' {
                Some(-digits_val(s.skip(1)))
            } else {
                Some(digits_val(s.skip(1)))
            }
        } else {
            None
        }
    } else if all_digits(s) {
        Some(digits_val(s))
    } else {
        None
    }
}

pub proof fn lemma_digits_val_nonneg(s: Seq<char>)
    requires
        forall|i: int| 0 <= i < s.len() ==> is_digit_char(s[i]),
    ensures
        digits_val(s) >= 0,
    decreases s.len(),
{
    if s.len() > 0 {
        lemma_digits_val_nonneg(s.drop_last());
    }
}

/// Parses an optionally signed decimal integer, exactly when it fits in `i32`.
pub fn parse_i32(s: &Vec<char>) -> (r: Option<i32>)
    ensures
        match r {
            Some(v) => int_literal_val(s@) == Some(v as int),
            None => int_literal_val(s@) is None || int_literal_val(s@)->Some_0 > 0x7fff_ffff
                || int_literal_val(s@)->Some_0 < -0x8000_0000,
        },
{
    let n: usize = s.len();
    if n == 0 {
        return None;
    }
    let neg: bool = s[0] == '-';
    let start: usize = if neg || s[0] == '+' { 1 } else { 0 };
    if start == n {
        return None;
    }
    let ghost digits = if start == 1 { s@.skip(1) } else { s@ };
    assert(digits.len() == n - start);
    assert(forall|k: int| 0 <= k < digits.len() ==> digits[k] == s@[start + k]);
    let cap: u64 = 0x1_0000_0000;
    let mut acc: u64 = 0;
    let mut over: bool = false;
    let mut i: usize = start;
    while i < n
        invariant
            n == s@.len(),
            start <= i <= n,
            start < n,
            start <= 1,
            cap == 0x1_0000_0000,
            neg == (s@[0] == '-'),
            (start == 1) == (s@[0] == '-' || s@[0] == '+'),
            digits == if start == 1 { s@.skip(1) } else { s@ },
            digits.len() == n - start,
            forall|k: int| 0 <= k < digits.len() ==> digits[k] == s@[start + k],
            forall|k: int| 0 <= k < i - start ==> is_digit_char(digits[k]),
            !over ==> acc <= cap && acc as int == digits_val(digits.take(i - start)),
            over ==> digits_val(digits.take(i - start)) > cap,
        decreases n - i,
    {
        let c = s[i];
        if !is_digit(c) {
            assert(!is_digit_char(digits[i - start]));
            assert(int_literal_val(s@) is None);
            return None;
        }
        let d: u64 = (c as u64) - ('0' as u64);
        proof {
            assert(digits.take(i + 1 - start).drop_last() =~= digits.take(i - start));
            assert(digits.take(i + 1 - start).last() == digits[i - start]);
            assert(forall|k: int| 0 <= k < i + 1 - start ==> is_digit_char(digits[k]));
            lemma_digits_val_nonneg(digits.take(i - start));
        }
        if over {
            proof {
                assert(digits_val(digits.take(i + 1 - start))
                    == digits_val(digits.take(i - start)) * 10 + (digits[i - start] as int
                    - '0' as int));
            }
        } else if acc > (cap - d) / 10 {
            proof {
                assert(acc * 10 + d > cap) by (nonlinear_arith)
                    requires
                        acc > (cap - d) / 10,
                        0 <= d < 10,
                        cap == 0x1_0000_0000,
                        acc >= 0,
                ;
            }
            over = true;
        } else {
            proof {
                assert(acc * 10 + d <= cap) by (nonlinear_arith)
                    requires
                        acc <= (cap - d) / 10,
                        0 <= d < 10,
                        cap == 0x1_0000_0000,
                        acc >= 0,
                ;
            }
            acc = acc * 10 + d;
        }
        i = i + 1;
    }
    proof {
        assert(digits.take(n - start) =~= digits);
        assert(all_digits(digits));
        if start == 1 {
            assert(int_literal_val(s@) == if neg { Some(-digits_val(digits)) } else {
                Some(digits_val(digits))
            });
        } else {
            assert(int_literal_val(s@) == Some(digits_val(digits)));
        }
    }
    if over {
        return None;
    }
    if neg {
        if acc > 0x8000_0000 {
            return None;
        }
        let v: i32 = (-(acc as i64)) as i32;
        assert(v as int == -(acc as int));
        Some(v)
    } else {
        if acc > 0x7fff_ffff {
            return None;
        }
        Some(acc as i32)
    }
}

} // verus!
