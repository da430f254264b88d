//! The shared rendering engine behind both target dialects.
//!
//! Both generators walk the same IR with the same algorithm; they differ only
//! in declaration keywords, in block keywords, and in a few statement-level
//! rewrites. The dialect is a parameter of every function here, and the two
//! public generator types are thin fronts over this module.

use vstd::prelude::*;

use crate::ir::model::{Architecture, ArchV, Entity, EntityV, Port, PortV, PortDirection, Process,
    ProcessV, Signal, SignalV, VHDLType, TypeV, spec_dir_keyword, spec_range_brackets,
    spec_type_sv, spec_type_verilog};
use crate::text::{contains_sub, dec_rep, find, find_idx, is_digit, is_digit_char, lines,
    u128_dec_chars, lines_spec, match_at, push_range, push_str_chars, replace,
    replace_all, str_chars, sub_vec, trim, trim_spec, seq_eq, contains, starts_with, ends_with,
    ends_with_spec, lemma_find_idx_some};

verus! {

/// Which of the two target renderings is produced.
#[derive(Debug, Clone, Copy, PartialEq, Eq)]
pub enum Dialect {
    Verilog,
    SystemVerilog,
}

// ---------------------------------------------------------------------------
// Small text utilities private to rendering
// ---------------------------------------------------------------------------

/// `s` repeated `n` times.
pub open spec fn repeat_seq(s: Seq<char>, n: int) -> Seq<char>
    decreases n,
{
    if n <= 0 {
        Seq::empty()
    } else {
        repeat_seq(s, n - 1) + s
    }
}

pub fn repeat_chars(s: &Vec<char>, n: usize) -> (r: Vec<char>)
    ensures
        r@ == repeat_seq(s@, n as int),
{
    let mut out: Vec<char> = Vec::new();
    let mut i: usize = 0;
    assert(out@ =~= repeat_seq(s@, 0));
    while i < n
        invariant
            i <= n,
            out@ == repeat_seq(s@, i as int),
        decreases n - i,
    {
        push_range(&mut out, s, 0, s.len());
        proof {
            assert(s@.subrange(0, s@.len() as int) =~= s@);
        }
        i = i + 1;
    }
    out
}

/// The pieces joined with `sep` between consecutive pieces.
pub open spec fn join_sep(parts: Seq<Seq<char>>, sep: Seq<char>) -> Seq<char>
    decreases parts.len(),
{
    if parts.len() == 0 {
        Seq::empty()
    } else if parts.len() == 1 {
        parts[0]
    } else {
        parts[0] + sep + join_sep(parts.drop_first(), sep)
    }
}

pub fn join(parts: &Vec<Vec<char>>, sep: &Vec<char>) -> (r: Vec<char>)
    ensures
        r@ == join_sep(parts@.map_values(|p: Vec<char>| p@), sep@),
{
    let ghost pv = parts@.map_values(|p: Vec<char>| p@);
    let n: usize = parts.len();
    let mut out: Vec<char> = Vec::new();
    let mut i: usize = 0;
    while i < n
        invariant
            pv == parts@.map_values(|p: Vec<char>| p@),
            n == parts@.len(),
            i <= n,
            i == 0 ==> out@ == Seq::<char>::empty(),
            0 < i < n ==> join_sep(pv, sep@) == out@ + sep@ + join_sep(pv.skip(i as int), sep@),
            i == n && n > 0 ==> join_sep(pv, sep@) == out@,
        decreases n - i,
    {
        proof {
            assert(pv.skip(i as int).len() == parts@.len() - i);
            assert(pv.skip(i as int)[0] == pv[i as int]);
            assert(pv.skip(i as int).drop_first() =~= pv.skip(i + 1 as int));
        }
        if i > 0 {
            push_range(&mut out, sep, 0, sep.len());
            proof {
                assert(sep@.subrange(0, sep@.len() as int) =~= sep@);
            }
        }
        let p = &parts[i];
        push_range(&mut out, p, 0, p.len());
        proof {
            assert(p@.subrange(0, p@.len() as int) =~= p@);
            assert(parts@.map_values(|q: Vec<char>| q@)[i as int] == parts@[i as int]@);
        }
        i = i + 1;
    }
    proof {
        if n == 0 {
            assert(out@ =~= join_sep(pv, sep@));
        }
    }
    out
}

/// The number of occurrences of `c` in `s`.
pub open spec fn count_char(s: Seq<char>, c: char) -> int
    decreases s.len(),
{
    if s.len() == 0 {
        0int
    } else {
        count_char(s.drop_last(), c) + if s.last() == c {
            1int
        } else {
            0int
        }
    }
}

pub fn count_char_exec(s: &Vec<char>, c: char) -> (r: usize)
    ensures
        r as int == count_char(s@, c),
{
    let mut n: usize = 0;
    let mut i: usize = 0;
    proof {
        assert(s@.take(0) =~= Seq::<char>::empty());
    }
    while i < s.len()
        invariant
            i <= s@.len(),
            n as int == count_char(s@.take(i as int), c),
            n <= i,
        decreases s@.len() - i,
    {
        proof {
            assert(s@.take(i + 1 as int).drop_last() =~= s@.take(i as int));
            assert(s@.take(i + 1 as int).last() == s@[i as int]);
        }
        if s[i] == c {
            n = n + 1;
        }
        i = i + 1;
    }
    proof {
        assert(s@.take(s@.len() as int) =~= s@);
    }
    n
}

/// The index of the last occurrence of `c` in `s`, if any.
pub open spec fn rfind_char(s: Seq<char>, c: char) -> Option<int>
    decreases s.len(),
{
    if s.len() == 0 {
        None
    } else if s.last() == c {
        Some(s.len() - 1)
    } else {
        rfind_char(s.drop_last(), c)
    }
}

pub fn rfind_char_exec(s: &Vec<char>, c: char) -> (r: Option<usize>)
    ensures
        match r {
            Some(i) => rfind_char(s@, c) == Some(i as int),
            None => rfind_char(s@, c) is None,
        },
{
    let mut i: usize = s.len();
    proof {
        assert(s@.take(s@.len() as int) =~= s@);
    }
    while i > 0
        invariant
            i <= s@.len(),
            rfind_char(s@, c) == rfind_char(s@.take(i as int), c),
        decreases i,
    {
        proof {
            assert(s@.take(i as int).last() == s@[i - 1]);
            assert(s@.take(i as int).drop_last() =~= s@.take(i - 1));
        }
        if s[i - 1] == c {
            return Some(i - 1);
        }
        i = i - 1;
    }
    proof {
        assert(s@.take(0) =~= Seq::<char>::empty());
    }
    None
}

proof fn lemma_rfind_props(s: Seq<char>, c: char)
    requires
        rfind_char(s, c) is Some,
    ensures
        0 <= rfind_char(s, c)->Some_0 < s.len(),
        s[rfind_char(s, c)->Some_0] == c,
    decreases s.len(),
{
    if s.len() > 0 && s.last() != c {
        lemma_rfind_props(s.drop_last(), c);
    }
}

/// `s` with the character at `i` removed.
pub open spec fn remove_at(s: Seq<char>, i: int) -> Seq<char> {
    s.take(i) + s.skip(i + 1)
}

proof fn lemma_count_remove_last(s: Seq<char>, c: char)
    requires
        rfind_char(s, c) is Some,
    ensures
        count_char(remove_at(s, rfind_char(s, c)->Some_0), c) == count_char(s, c) - 1,
    decreases s.len(),
{
    let i = rfind_char(s, c)->Some_0;
    if s.last() == c {
        assert(remove_at(s, s.len() - 1) =~= s.drop_last());
    } else {
        lemma_rfind_props(s.drop_last(), c);
        lemma_count_remove_last(s.drop_last(), c);
        assert(remove_at(s, i).drop_last() =~= remove_at(s.drop_last(), i));
        assert(remove_at(s, i).last() == s.last());
    }
}

/// Closing parentheses that exceed the opening ones are stripped from the
/// right until the counts agree; this undoes the parentheses left behind when
/// a conversion-call name and its opening parenthesis are deleted.
pub open spec fn rebalance_parens(s: Seq<char>) -> Seq<char>
    decreases s.len(),
{
    if count_char(s, ')') > count_char(s, '(') {
        match rfind_char(s, ')') {
            Some(i) => {
                if count_char(remove_at(s, i), ')') < count_char(s, ')')
                    && remove_at(s, i).len() < s.len() {
                    rebalance_parens(remove_at(s, i))
                } else {
                    s
                }
            }
            None => s,
        }
    } else {
        s
    }
}

pub fn rebalance_parens_exec(s: &Vec<char>) -> (r: Vec<char>)
    ensures
        r@ == rebalance_parens(s@),
{
    let mut v = sub_vec(s, 0, s.len());
    proof {
        assert(s@.subrange(0, s@.len() as int) =~= s@);
    }
    loop
        invariant
            rebalance_parens(s@) == rebalance_parens(v@),
        decreases v@.len(),
    {
        let close = count_char_exec(&v, ')');
        let open = count_char_exec(&v, '(');
        if close <= open {
            assert(rebalance_parens(v@) == v@);
            return v;
        }
        match rfind_char_exec(&v, ')') {
            Some(pos) => {
                proof {
                    lemma_rfind_props(v@, ')');
                    lemma_count_remove_last(v@, ')');
                    assert(v@.remove(pos as int) =~= remove_at(v@, pos as int));
                }
                v.remove(pos);
            }
            None => {
                return v;
            }
        }
    }
}

// ---------------------------------------------------------------------------
// Convenience fronts taking string-literal patterns
// ---------------------------------------------------------------------------

pub fn rall(v: &Vec<char>, pat: &str, rep: &str) -> (r: Vec<char>)
    ensures
        r@ == replace_all(v@, pat@, rep@),
{
    let p = str_chars(pat);
    if p.len() == 0 {
        let r = sub_vec(v, 0, v.len());
        proof {
            assert(v@.subrange(0, v@.len() as int) =~= v@);
        }
        r
    } else {
        replace(v, &p, &str_chars(rep))
    }
}

pub fn contains_str(v: &Vec<char>, pat: &str) -> (r: bool)
    ensures
        r == contains_sub(v@, pat@),
{
    contains(v, &str_chars(pat))
}

pub fn starts_with_str(v: &Vec<char>, pat: &str) -> (r: bool)
    ensures
        r == match_at(v@, pat@, 0),
{
    starts_with(v, &str_chars(pat))
}

pub fn ends_with_str(v: &Vec<char>, pat: &str) -> (r: bool)
    ensures
        r == ends_with_spec(v@, pat@),
{
    ends_with(v, &str_chars(pat))
}

pub fn eq_str(v: &Vec<char>, pat: &str) -> (r: bool)
    ensures
        r == (v@ == pat@),
{
    seq_eq(v, &str_chars(pat))
}

// ---------------------------------------------------------------------------
// First-occurrence replacement and insertion
// ---------------------------------------------------------------------------

/// Only the first occurrence of `pat` replaced by `rep`.
pub open spec fn replace_first(s: Seq<char>, pat: Seq<char>, rep: Seq<char>) -> Seq<char> {
    match find_idx(s, pat, 0) {
        Some(i) => s.take(i) + rep + s.skip(i + pat.len()),
        None => s,
    }
}

pub fn replace_first_exec(v: &Vec<char>, pat: &str, rep: &str) -> (r: Vec<char>)
    ensures
        r@ == replace_first(v@, pat@, rep@),
{
    let p = str_chars(pat);
    match find(v, &p, 0) {
        Some(i) => {
            let n: usize = v.len();
            proof {
                lemma_find_idx_some(v@, p@, 0);
            }
            assert(i + p@.len() <= n);
            let mut out = sub_vec(v, 0, i);
            push_str_chars(&mut out, rep);
            push_range(&mut out, v, i + p.len(), n);
            proof {
                assert(v@.subrange(0, i as int) =~= v@.take(i as int));
                assert(v@.subrange(i + p@.len() as int, v@.len() as int) =~= v@.skip(
                    i + p@.len() as int));
            }
            out
        }
        None => {
            let r = sub_vec(v, 0, v.len());
            proof {
                assert(v@.subrange(0, v@.len() as int) =~= v@);
            }
            r
        }
    }
}

/// `s` with `what` inserted at position `i`.
pub open spec fn insert_seq_at(s: Seq<char>, i: int, what: Seq<char>) -> Seq<char> {
    s.take(i) + what + s.skip(i)
}

// ---------------------------------------------------------------------------
// Trimming a specific character from both ends
// ---------------------------------------------------------------------------

pub open spec fn trim_char_start(s: Seq<char>, c: char) -> Seq<char>
    decreases s.len(),
{
    if s.len() > 0 && s[0] == c {
        trim_char_start(s.skip(1), c)
    } else {
        s
    }
}

pub open spec fn trim_char_end(s: Seq<char>, c: char) -> Seq<char>
    decreases s.len(),
{
    if s.len() > 0 && s.last() == c {
        trim_char_end(s.drop_last(), c)
    } else {
        s
    }
}

/// All leading and all trailing occurrences of `c` removed.
pub open spec fn trim_char_spec(s: Seq<char>, c: char) -> Seq<char> {
    trim_char_end(trim_char_start(s, c), c)
}

proof fn lemma_trim_char_start_at(s: Seq<char>, c: char, a: int)
    requires
        0 <= a <= s.len(),
        forall|i: int| 0 <= i < a ==> s[i] == c,
        a == s.len() || s[a] != c,
    ensures
        trim_char_start(s, c) == s.skip(a),
    decreases a,
{
    if a == 0 {
        assert(s.skip(0) =~= s);
    } else {
        lemma_trim_char_start_at(s.skip(1), c, a - 1);
        assert(s.skip(1).skip(a - 1) =~= s.skip(a));
    }
}

proof fn lemma_trim_char_end_at(s: Seq<char>, c: char, b: int)
    requires
        0 <= b <= s.len(),
        forall|j: int| b <= j < s.len() ==> s[j] == c,
        b == 0 || s[b - 1] != c,
    ensures
        trim_char_end(s, c) == s.take(b),
    decreases s.len() - b,
{
    if b == s.len() {
        assert(s.take(b) =~= s);
    } else {
        lemma_trim_char_end_at(s.drop_last(), c, b);
        assert(s.drop_last().take(b) =~= s.take(b));
    }
}

pub fn trim_char(s: &Vec<char>, c: char) -> (r: Vec<char>)
    ensures
        r@ == trim_char_spec(s@, c),
{
    let n: usize = s.len();
    let mut a: usize = 0;
    while a < n && s[a] == c
        invariant
            n == s@.len(),
            a <= n,
            forall|i: int| 0 <= i < a ==> s@[i] == c,
        decreases n - a,
    {
        a = a + 1;
    }
    let mut b: usize = n;
    while b > a && s[b - 1] == c
        invariant
            n == s@.len(),
            a <= b <= n,
            forall|j: int| b <= j < n ==> s@[j] == c,
        decreases b,
    {
        b = b - 1;
    }
    proof {
        lemma_trim_char_start_at(s@, c, a as int);
        lemma_trim_char_end_at(s@.skip(a as int), c, b - a);
        assert(s@.skip(a as int).take(b - a) =~= s@.subrange(a as int, b as int));
    }
    sub_vec(s, a, b)
}

// ---------------------------------------------------------------------------
// Hexadecimal literals
// ---------------------------------------------------------------------------

pub open spec fn is_hex_digit(c: char) -> bool {
    is_digit_char(c) || ('a' <= c && c <= 'f') || ('A' <= c && c <= 'F')
}

/// The first index at or after `i` whose character is not a hex digit.
pub open spec fn hex_run_end(s: Seq<char>, i: int) -> int
    decreases s.len() - i,
{
    if i < 0 || i >= s.len() {
        i
    } else if is_hex_digit(s[i]) {
        hex_run_end(s, i + 1)
    } else {
        i
    }
}

/// A source hex literal `x"<digits>"` starts at the head of `s`.
pub open spec fn hex_lit_at_head(s: Seq<char>) -> bool {
    &&& s.len() >= 2
    &&& s[0] == 'x'
    &&& s[1] == '"'
    &&& hex_run_end(s, 2) > 2
    &&& hex_run_end(s, 2) < s.len()
    &&& s[hex_run_end(s, 2)] == '"'
}

/// Every hex literal `x"<digits>"` rewritten to the sized form
/// `<4 * digit count>'h<digits>`: each hex digit stands for four bits.
pub open spec fn hex_rewrite(s: Seq<char>) -> Seq<char>
    decreases s.len(),
{
    if s.len() == 0 {
        Seq::empty()
    } else if hex_lit_at_head(s) {
        let e = hex_run_end(s, 2);
        dec_rep(4 * (e - 2)) + "'h"@ + s.subrange(2, e) + hex_rewrite(s.skip(e + 1))
    } else {
        seq![s[0]] + hex_rewrite(s.skip(1))
    }
}

proof fn lemma_hex_run_end_bounds(s: Seq<char>, i: int)
    requires
        0 <= i <= s.len(),
    ensures
        i <= hex_run_end(s, i) <= s.len(),
    decreases s.len() - i,
{
    if i < s.len() && is_hex_digit(s[i]) {
        lemma_hex_run_end_bounds(s, i + 1);
    }
}

fn is_hex_digit_exec(c: char) -> (r: bool)
    ensures
        r == is_hex_digit(c),
{
    is_digit(c) || ('a' <= c && c <= 'f') || ('A' <= c && c <= 'F')
}

/// The end of the run of hex digits of `s` that starts at `i`.
fn hex_run_end_exec(s: &Vec<char>, i: usize) -> (r: usize)
    requires
        i <= s@.len(),
    ensures
        r as int == hex_run_end(s@, i as int),
        i <= r <= s@.len(),
{
    let n: usize = s.len();
    let mut j: usize = i;
    while j < n && is_hex_digit_exec(s[j])
        invariant
            n == s@.len(),
            i <= j <= n,
            hex_run_end(s@, i as int) == hex_run_end(s@, j as int),
        decreases n - j,
    {
        j = j + 1;
    }
    j
}

pub fn hex_rewrite_exec(s: &Vec<char>) -> (r: Vec<char>)
    ensures
        r@ == hex_rewrite(s@),
{
    let n: usize = s.len();
    let mut out: Vec<char> = Vec::new();
    let mut i: usize = 0;
    proof {
        assert(s@.skip(0) =~= s@);
        assert(out@ + hex_rewrite(s@) =~= hex_rewrite(s@));
    }
    while i < n
        invariant
            n == s@.len(),
            i <= n,
            hex_rewrite(s@) == out@ + hex_rewrite(s@.skip(i as int)),
        decreases n - i,
    {
        let ghost tail = s@.skip(i as int);
        proof {
            assert(tail.len() == n - i);
            assert(forall|k: int| 0 <= k < tail.len() ==> tail[k] == s@[i + k]);
        }
        let mut lit = false;
        let mut e: usize = 0;
        if s[i] == 'x' && i + 1 < n && s[i + 1] == '"' {
            e = hex_run_end_exec(s, i + 2);
            proof {
                lemma_hex_run_shift(s@, i as int, i + 2);
            }
            if e > i + 2 && e < n && s[e] == '"' {
                lit = true;
            }
        }
        if lit {
            proof {
                assert(hex_lit_at_head(tail));
                assert(hex_run_end(tail, 2) == e - i);
            }
            let width = u128_dec_chars(4 * ((e - i - 2) as u128));
            push_range(&mut out, &width, 0, width.len());
            proof {
                assert(width@.subrange(0, width@.len() as int) =~= width@);
            }
            push_str_chars(&mut out, "'h");
            push_range(&mut out, s, i + 2, e);
            proof {
                assert(s@.subrange(i + 2 as int, e as int) =~= tail.subrange(2, e - i));
                assert(tail.skip(e - i + 1) =~= s@.skip(e + 1 as int));
            }
            i = e + 1;
        } else {
            proof {
                assert(!hex_lit_at_head(tail)) by {
                    if tail.len() >= 2 && tail[0] == 'x' && tail[1] == '"' {
                        lemma_hex_run_shift(s@, i as int, i + 2);
                        lemma_hex_run_end_bounds(tail, 2);
                    }
                }
                assert(tail[0] == s@[i as int]);
                assert(tail.skip(1) =~= s@.skip(i + 1 as int));
            }
            out.push(s[i]);
            i = i + 1;
        }
    }
    proof {
        assert(s@.skip(n as int).len() == 0);
        assert(hex_rewrite(s@.skip(n as int)) =~= Seq::<char>::empty());
        assert(out@ =~= hex_rewrite(s@));
    }
    out
}

/// Runs of hex digits agree between a sequence and its suffixes.
proof fn lemma_hex_run_shift(s: Seq<char>, base: int, j: int)
    requires
        0 <= base <= j <= s.len(),
    ensures
        hex_run_end(s, j) - base == hex_run_end(s.skip(base), j - base),
    decreases s.len() - j,
{
    let t = s.skip(base);
    if j < s.len() {
        assert(t[j - base] == s[j]);
        if is_hex_digit(s[j]) {
            lemma_hex_run_shift(s, base, j + 1);
        }
    }
}

// ---------------------------------------------------------------------------
// Procedural body translation: one line at a time through a small state
// machine (case tracking and indentation depth)
// ---------------------------------------------------------------------------

/// Indentation depth is capped here; blocks nested deeper all render at the
/// cap's indentation. Translation is otherwise unaffected.
pub const LEVEL_CAP: usize = 10000;

/// The state threaded through the per-line translation of one process body.
#[derive(Debug, Clone, Copy, PartialEq, Eq, Structural)]
pub struct BodyState {
    /// A case construct is open.
    pub in_case: bool,
    /// The currently open case branch has already emitted a statement, so its
    /// closing `end` is still owed.
    pub branch_has_stmt: bool,
    /// Current nesting depth, for indentation only.
    pub level: usize,
}

pub open spec fn initial_body_state() -> BodyState {
    BodyState { in_case: false, branch_has_stmt: false, level: 0 }
}

/// Hex literals, bit literals (comparison forms before bare forms, so
/// assignment and comparison contexts stay distinct), and the all-zero /
/// all-one aggregate idiom.
pub open spec fn spec_rewrite_literals(d: Dialect, l: Seq<char>) -> Seq<char> {
    let l1 = hex_rewrite(l);
    let l2 = replace_all(l1, "='1'"@, " == 1'b1"@);
    let l3 = replace_all(l2, "='0'"@, " == 1'b0"@);
    let l4 = replace_all(l3, " = '1'"@, " == 1'b1"@);
    let l5 = replace_all(l4, " = '0'"@, " == 1'b0"@);
    let l6 = replace_all(l5, "'1'"@, "1'b1"@);
    let l7 = replace_all(l6, "'0'"@, "1'b0"@);
    match d {
        Dialect::Verilog => {
            let l8 = replace_all(l7, "(others => 1'b0)"@, "8'b0"@);
            replace_all(l8, "(others => 1'b1)"@, "8'b1"@)
        }
        Dialect::SystemVerilog => {
            if contains_sub(l7, "(others =>"@) {
                if contains_sub(l7, "1'b0"@) {
                    replace_all(l7, "(others => 1'b0)"@, "'0"@)
                } else if contains_sub(l7, "1'b1"@) {
                    replace_all(l7, "(others => 1'b1)"@, "'1"@)
                } else {
                    l7
                }
            } else {
                l7
            }
        }
    }
}

pub struct CaseStep {
    /// Emitted before the line itself: the closing `end` still owed by the
    /// previous case branch, if one was open and non-empty.
    pub pre: Seq<char>,
    pub line: Seq<char>,
    pub st: BodyState,
}

/// A case label, rendered: `others` becomes the default label, a quoted
/// binary literal becomes a sized binary literal, anything else is kept as an
/// identifier label.
pub open spec fn spec_case_label(value: Seq<char>) -> Seq<char> {
    if value == "others"@ {
        "default: begin"@
    } else if value.len() >= 1 && value[0] == '"' && value.last() == '"' {
        let b = trim_char_spec(value, '"');
        dec_rep(b.len() as int) + "'b"@ + b + ": begin"@
    } else {
        value + ": begin"@
    }
}

/// Case-construct handling: headers, branch labels and `end case`, with the
/// owed branch-closing `end` emitted exactly once per non-empty branch.
pub open spec fn spec_case_step(d: Dialect, l: Seq<char>, st: BodyState, ind: Seq<char>)
    -> CaseStep {
    let close = repeat_seq(ind, 2) + "end\n"@;
    if match_at(l, "case "@, 0) && contains_sub(l, " is"@) {
        let t = replace_first(
            replace_all(l, " is"@, Seq::empty()),
            "case "@,
            match d {
                Dialect::Verilog => "case ("@,
                Dialect::SystemVerilog => "unique case ("@,
            },
        );
        let t2 = if !ends_with_spec(t, ")"@) {
            t + seq![')']
        } else {
            t
        };
        CaseStep {
            pre: Seq::empty(),
            line: t2,
            st: BodyState { in_case: true, branch_has_stmt: false, level: st.level },
        }
    } else if match_at(l, "when "@, 0) {
        let pre = if st.in_case && st.branch_has_stmt {
            close
        } else {
            Seq::empty()
        };
        let st1 = BodyState { in_case: st.in_case, branch_has_stmt: false, level: st.level };
        let ve = find_idx(l, " =>"@, 0);
        if ve is Some && ve->Some_0 >= 5 {
            let value = trim_spec(l.subrange(5, ve->Some_0));
            CaseStep { pre, line: spec_case_label(value), st: st1 }
        } else {
            CaseStep { pre, line: l, st: st1 }
        }
    } else if l == "end case"@ || l == "end case;"@ {
        let pre = if st.in_case && st.branch_has_stmt {
            close
        } else {
            Seq::empty()
        };
        CaseStep {
            pre,
            line: "endcase"@,
            st: BodyState { in_case: false, branch_has_stmt: false, level: st.level },
        }
    } else {
        CaseStep { pre: Seq::empty(), line: l, st }
    }
}

/// `if` / `elsif` / `else` / `end if` translation. The source's `then` becomes
/// `begin`, and the condition ends up parenthesized: the closing parenthesis
/// is supplied with the rewrite, and when the source condition had no
/// parentheses at all, the opening one is inserted after the `if` keyword. An
/// `elsif` on an edge-detection call collapses to a plain `else`, since the
/// edge already lives in the block header.
pub open spec fn spec_if_step(d: Dialect, l: Seq<char>) -> Seq<char> {
    let is_if = match_at(l, "if "@, 0) || match_at(l, "if("@, 0);
    let is_elsif = match_at(l, "elsif "@, 0) || match_at(l, "elsif("@, 0);
    let is_else = l == "else"@;
    let is_endif = l == "end if"@ || l == "end if;"@;
    if is_if {
        let l1 = if match_at(l, "if("@, 0) {
            replace_first(l, "if("@, "if ("@)
        } else {
            l
        };
        if contains_sub(l1, " then"@) {
            match d {
                Dialect::Verilog => {
                    let l2 = replace_all(l1, " then"@, ") begin"@);
                    if !contains_sub(l2, "("@) && match_at(l2, "if "@, 0) {
                        insert_seq_at(l2, 3, seq!['('])
                    } else {
                        l2
                    }
                }
                Dialect::SystemVerilog => {
                    let l2 = replace_all(l1, " then"@, " begin"@);
                    if !contains_sub(l2, "("@) && match_at(l2, "if "@, 0) {
                        let l3 = insert_seq_at(l2, 3, seq!['(']);
                        match find_idx(l3, " begin"@, 0) {
                            Some(i) => insert_seq_at(l3, i, seq![')']),
                            None => l3,
                        }
                    } else if !contains_sub(l2, ")"@) && contains_sub(l2, "("@) {
                        match find_idx(l2, " begin"@, 0) {
                            Some(i) => insert_seq_at(l2, i, seq![')']),
                            None => l2,
                        }
                    } else {
                        l2
                    }
                }
            }
        } else if contains_sub(l1, " begin"@) {
            if !contains_sub(l1, ")"@) && contains_sub(l1, "("@) {
                replace_all(l1, " begin"@, ") begin"@)
            } else {
                l1
            }
        } else {
            if contains_sub(l1, "("@) && !contains_sub(l1, ")"@) {
                l1 + ") begin"@
            } else if !ends_with_spec(l1, "begin"@) {
                l1 + " begin"@
            } else {
                l1
            }
        }
    } else if is_elsif {
        if contains_sub(l, "rising_edge"@) || contains_sub(l, "falling_edge"@) {
            "end else begin"@
        } else {
            let l1 = replace_all(replace_first(l, "elsif "@, "end else if ("@), " then"@,
                ") begin"@);
            if !contains_sub(l1, ") begin"@) {
                l1 + " begin"@
            } else {
                l1
            }
        }
    } else if is_else {
        "end else begin"@
    } else if is_endif {
        "end"@
    } else {
        l
    }
}

/// Word-form logical operators become the target's bitwise operators.
pub open spec fn spec_ops_rewrite(l: Seq<char>) -> Seq<char> {
    let l1 = replace_all(l, " and "@, " & "@);
    let l2 = replace_all(l1, " or "@, " | "@);
    let l3 = replace_all(l2, " xor "@, " ^ "@);
    replace_all(l3, " not "@, " ~"@)
}

/// Conversion-function wrappers are deleted (name and opening parenthesis);
/// the leftover closing parentheses are rebalanced afterwards.
pub open spec fn spec_strip_casts(d: Dialect, l: Seq<char>) -> Seq<char> {
    let l1 = replace_all(l, "std_logic_vector(unsigned("@, Seq::empty());
    let l2 = replace_all(l1, "std_logic_vector(signed("@, Seq::empty());
    let l3 = replace_all(l2, "std_logic_vector("@, Seq::empty());
    let l4 = replace_all(l3, "unsigned("@, Seq::empty());
    let l5 = replace_all(l4, "signed("@, Seq::empty());
    let l6 = replace_all(l5, "to_unsigned("@, Seq::empty());
    let l7 = replace_all(l6, "to_signed("@, Seq::empty());
    match d {
        Dialect::Verilog => replace_all(l7, "to_integer("@, Seq::empty()),
        Dialect::SystemVerilog => replace_all(l7, "to_integer("@, "int'("@),
    }
}

/// A control-flow line carries no statement terminator.
pub open spec fn spec_is_control_flow(d: Dialect, l: Seq<char>) -> bool {
    ||| contains_sub(l, "begin"@)
    ||| (match_at(l, "end"@, 0) && !match_at(l, "endcase"@, 0))
    ||| l == "else"@
    ||| ends_with_spec(l, ":"@)
    ||| (d == Dialect::SystemVerilog && match_at(l, "unique case"@, 0))
    ||| match_at(l, "case"@, 0)
    ||| l == "endcase"@
}

pub struct LineOut {
    pub text: Seq<char>,
    pub st: BodyState,
}

/// One raw body line translated: blank and comment lines vanish, edge-guard
/// `if`s vanish (the edge is in the block header), everything else goes
/// through the rewrite chain and is indented and terminated.
pub open spec fn spec_line_convert(d: Dialect, raw: Seq<char>, st: BodyState, ind: Seq<char>)
    -> LineOut {
    let l0 = trim_spec(raw);
    if l0.len() == 0 || match_at(l0, "--"@, 0) {
        LineOut { text: Seq::empty(), st }
    } else if match_at(l0, "if"@, 0) && (contains_sub(l0, "rising_edge"@) || contains_sub(l0,
        "falling_edge"@)) {
        LineOut { text: Seq::empty(), st }
    } else {
        let l1 = spec_rewrite_literals(d, l0);
        let cs = spec_case_step(d, l1, st, ind);
        let l3 = spec_if_step(d, cs.line);
        let l4 = spec_ops_rewrite(l3);
        let l5 = spec_strip_casts(d, l4);
        let l6 = rebalance_parens(l5);
        let cf = spec_is_control_flow(d, l6);
        let lvl = if match_at(l6, "end"@, 0) && cs.st.level > 0 {
            (cs.st.level - 1) as usize
        } else {
            cs.st.level
        };
        let cur_ind = repeat_seq(ind, lvl + 2);
        let semi: Seq<char> = if !cf && !ends_with_spec(l6, ";"@) {
            seq![';']
        } else {
            Seq::empty()
        };
        let text = cs.pre + cur_ind + l6 + semi + seq!['\n'];
        let lvl2 = if contains_sub(l6, "begin"@) && lvl < LEVEL_CAP {
            (lvl + 1) as usize
        } else {
            lvl
        };
        let branch2 = if cs.st.in_case && !cf && contains_sub(l6, " <= "@) {
            true
        } else {
            cs.st.branch_has_stmt
        };
        LineOut {
            text,
            st: BodyState { in_case: cs.st.in_case, branch_has_stmt: branch2, level: lvl2 },
        }
    }
}

pub fn rewrite_literals(d: Dialect, l: &Vec<char>) -> (r: Vec<char>)
    ensures
        r@ == spec_rewrite_literals(d, l@),
{
    let l1 = hex_rewrite_exec(l);
    let l2 = rall(&l1, "='1'", " == 1'b1");
    let l3 = rall(&l2, "='0'", " == 1'b0");
    let l4 = rall(&l3, " = '1'", " == 1'b1");
    let l5 = rall(&l4, " = '0'", " == 1'b0");
    let l6 = rall(&l5, "'1'", "1'b1");
    let l7 = rall(&l6, "'0'", "1'b0");
    match d {
        Dialect::Verilog => {
            let l8 = rall(&l7, "(others => 1'b0)", "8'b0");
            rall(&l8, "(others => 1'b1)", "8'b1")
        }
        Dialect::SystemVerilog => {
            if contains_str(&l7, "(others =>") {
                if contains_str(&l7, "1'b0") {
                    rall(&l7, "(others => 1'b0)", "'0")
                } else if contains_str(&l7, "1'b1") {
                    rall(&l7, "(others => 1'b1)", "'1")
                } else {
                    l7
                }
            } else {
                l7
            }
        }
    }
}

pub fn case_label(value: &Vec<char>) -> (r: Vec<char>)
    ensures
        r@ == spec_case_label(value@),
{
    if eq_str(value, "others") {
        str_chars("default: begin")
    } else if value.len() >= 1 && value[0] == '"' && value[value.len() - 1] == '"' {
        let b = trim_char(value, '"');
        let mut out = u128_dec_chars(b.len() as u128);
        push_str_chars(&mut out, "'b");
        push_range(&mut out, &b, 0, b.len());
        push_str_chars(&mut out, ": begin");
        proof {
            assert(b@.subrange(0, b@.len() as int) =~= b@);
            assert(out@ =~= spec_case_label(value@));
        }
        out
    } else {
        let mut out = sub_vec(value, 0, value.len());
        push_str_chars(&mut out, ": begin");
        proof {
            assert(value@.subrange(0, value@.len() as int) =~= value@);
        }
        out
    }
}

pub fn case_step(d: Dialect, l: &Vec<char>, st: BodyState, ind: &Vec<char>) -> (r: (Vec<char>,
    Vec<char>, BodyState))
    ensures
        r.0@ == spec_case_step(d, l@, st, ind@).pre,
        r.1@ == spec_case_step(d, l@, st, ind@).line,
        r.2 == spec_case_step(d, l@, st, ind@).st,
{
    proof {
        reveal_strlit("");
        assert(""@ =~= Seq::<char>::empty());
    }
    let close = {
        let mut c = repeat_chars(ind, 2);
        push_str_chars(&mut c, "end\n");
        c
    };
    if starts_with_str(l, "case ") && contains_str(l, " is") {
        let stripped = rall(l, " is", "");
        let t = match d {
            Dialect::Verilog => replace_first_exec(&stripped, "case ", "case ("),
            Dialect::SystemVerilog => replace_first_exec(&stripped, "case ", "unique case ("),
        };
        let t2 = if !ends_with_str(&t, ")") {
            let mut t2 = t;
            t2.push(')');
            proof {
                assert(t2@ =~= spec_case_step(d, l@, st, ind@).line);
            }
            t2
        } else {
            t
        };
        (Vec::new(), t2, BodyState { in_case: true, branch_has_stmt: false, level: st.level })
    } else if starts_with_str(l, "when ") {
        let pre = if st.in_case && st.branch_has_stmt {
            close
        } else {
            Vec::new()
        };
        let st1 = BodyState { in_case: st.in_case, branch_has_stmt: false, level: st.level };
        match find(l, &str_chars(" =>"), 0) {
            Some(ve) if ve >= 5 => {
                proof {
                    lemma_find_idx_some(l@, " =>"@, 0);
                }
                let value = trim(&sub_vec(l, 5, ve));
                (pre, case_label(&value), st1)
            }
            _ => {
                let r = sub_vec(l, 0, l.len());
                proof {
                    assert(l@.subrange(0, l@.len() as int) =~= l@);
                }
                (pre, r, st1)
            }
        }
    } else if eq_str(l, "end case") || eq_str(l, "end case;") {
        let pre = if st.in_case && st.branch_has_stmt {
            close
        } else {
            Vec::new()
        };
        (pre, str_chars("endcase"), BodyState {
            in_case: false,
            branch_has_stmt: false,
            level: st.level,
        })
    } else {
        let r = sub_vec(l, 0, l.len());
        proof {
            assert(l@.subrange(0, l@.len() as int) =~= l@);
        }
        (Vec::new(), r, st)
    }
}

/// `v` with `c` inserted at position `i`.
fn insert_char_at(v: &Vec<char>, i: usize, c: char) -> (r: Vec<char>)
    requires
        i <= v@.len(),
    ensures
        r@ == insert_seq_at(v@, i as int, seq![c]),
{
    let mut out = sub_vec(v, 0, i);
    out.push(c);
    push_range(&mut out, v, i, v.len());
    proof {
        assert(out@ =~= insert_seq_at(v@, i as int, seq![c]));
    }
    out
}

pub fn if_step(d: Dialect, l: &Vec<char>) -> (r: Vec<char>)
    ensures
        r@ == spec_if_step(d, l@),
{
    let is_if = starts_with_str(l, "if ") || starts_with_str(l, "if(");
    let is_elsif = starts_with_str(l, "elsif ") || starts_with_str(l, "elsif(");
    let is_else = eq_str(l, "else");
    let is_endif = eq_str(l, "end if") || eq_str(l, "end if;");
    if is_if {
        let l1 = if starts_with_str(l, "if(") {
            replace_first_exec(l, "if(", "if (")
        } else {
            let c = sub_vec(l, 0, l.len());
            proof {
                assert(l@.subrange(0, l@.len() as int) =~= l@);
            }
            c
        };
        if contains_str(&l1, " then") {
            match d {
                Dialect::Verilog => {
                    let l2 = rall(&l1, " then", ") begin");
                    if !contains_str(&l2, "(") && starts_with_str(&l2, "if ") {
                        proof {
                            reveal_strlit("if ");
                        }
                        insert_char_at(&l2, 3, '(')
                    } else {
                        l2
                    }
                }
                Dialect::SystemVerilog => {
                    let l2 = rall(&l1, " then", " begin");
                    if !contains_str(&l2, "(") && starts_with_str(&l2, "if ") {
                        proof {
                            reveal_strlit("if ");
                        }
                        let l3 = insert_char_at(&l2, 3, '(');
                        match find(&l3, &str_chars(" begin"), 0) {
                            Some(i) => {
                                proof {
                                    lemma_find_idx_some(l3@, " begin"@, 0);
                                }
                                insert_char_at(&l3, i, ')')
                            }
                            None => l3,
                        }
                    } else if !contains_str(&l2, ")") && contains_str(&l2, "(") {
                        match find(&l2, &str_chars(" begin"), 0) {
                            Some(i) => {
                                proof {
                                    lemma_find_idx_some(l2@, " begin"@, 0);
                                }
                                insert_char_at(&l2, i, ')')
                            }
                            None => l2,
                        }
                    } else {
                        l2
                    }
                }
            }
        } else if contains_str(&l1, " begin") {
            if !contains_str(&l1, ")") && contains_str(&l1, "(") {
                rall(&l1, " begin", ") begin")
            } else {
                l1
            }
        } else {
            if contains_str(&l1, "(") && !contains_str(&l1, ")") {
                let mut out = l1;
                push_str_chars(&mut out, ") begin");
                out
            } else if !ends_with_str(&l1, "begin") {
                let mut out = l1;
                push_str_chars(&mut out, " begin");
                out
            } else {
                l1
            }
        }
    } else if is_elsif {
        if contains_str(l, "rising_edge") || contains_str(l, "falling_edge") {
            str_chars("end else begin")
        } else {
            let l1 = rall(&replace_first_exec(l, "elsif ", "end else if ("), " then", ") begin");
            if !contains_str(&l1, ") begin") {
                let mut out = l1;
                push_str_chars(&mut out, " begin");
                out
            } else {
                l1
            }
        }
    } else if is_else {
        str_chars("end else begin")
    } else if is_endif {
        str_chars("end")
    } else {
        let r = sub_vec(l, 0, l.len());
        proof {
            assert(l@.subrange(0, l@.len() as int) =~= l@);
        }
        r
    }
}

pub fn ops_rewrite(l: &Vec<char>) -> (r: Vec<char>)
    ensures
        r@ == spec_ops_rewrite(l@),
{
    let l1 = rall(l, " and ", " & ");
    let l2 = rall(&l1, " or ", " | ");
    let l3 = rall(&l2, " xor ", " ^ ");
    rall(&l3, " not ", " ~")
}

pub fn strip_casts(d: Dialect, l: &Vec<char>) -> (r: Vec<char>)
    ensures
        r@ == spec_strip_casts(d, l@),
{
    proof {
        reveal_strlit("");
        assert(""@ =~= Seq::<char>::empty());
    }
    let l1 = rall(l, "std_logic_vector(unsigned(", "");
    let l2 = rall(&l1, "std_logic_vector(signed(", "");
    let l3 = rall(&l2, "std_logic_vector(", "");
    let l4 = rall(&l3, "unsigned(", "");
    let l5 = rall(&l4, "signed(", "");
    let l6 = rall(&l5, "to_unsigned(", "");
    let l7 = rall(&l6, "to_signed(", "");
    match d {
        Dialect::Verilog => rall(&l7, "to_integer(", ""),
        Dialect::SystemVerilog => rall(&l7, "to_integer(", "int'("),
    }
}

pub fn is_control_flow(d: Dialect, l: &Vec<char>) -> (r: bool)
    ensures
        r == spec_is_control_flow(d, l@),
{
    contains_str(l, "begin") || (starts_with_str(l, "end") && !starts_with_str(l, "endcase"))
        || eq_str(l, "else") || ends_with_str(l, ":") || (matches!(d, Dialect::SystemVerilog)
        && starts_with_str(l, "unique case")) || starts_with_str(l, "case") || eq_str(l, "endcase")
}

pub fn convert_line(d: Dialect, raw: &Vec<char>, st: BodyState, ind: &Vec<char>) -> (r: (Vec<
    char>, BodyState))
    requires
        st.level <= LEVEL_CAP,
    ensures
        r.0@ == spec_line_convert(d, raw@, st, ind@).text,
        r.1 == spec_line_convert(d, raw@, st, ind@).st,
        r.1.level <= LEVEL_CAP,
{
    let l0 = trim(raw);
    if l0.len() == 0 || starts_with_str(&l0, "--") {
        return (Vec::new(), st);
    }
    if starts_with_str(&l0, "if") && (contains_str(&l0, "rising_edge") || contains_str(&l0,
        "falling_edge")) {
        return (Vec::new(), st);
    }
    let l1 = rewrite_literals(d, &l0);
    let (pre, l2, st1) = case_step(d, &l1, st, ind);
    let l3 = if_step(d, &l2);
    let l4 = ops_rewrite(&l3);
    let l5 = strip_casts(d, &l4);
    let l6 = rebalance_parens_exec(&l5);
    let cf = is_control_flow(d, &l6);
    let lvl: usize = if starts_with_str(&l6, "end") && st1.level > 0 {
        st1.level - 1
    } else {
        st1.level
    };
    let mut text = pre;
    let cur = repeat_chars(ind, lvl + 2);
    push_range(&mut text, &cur, 0, cur.len());
    push_range(&mut text, &l6, 0, l6.len());
    if !cf && !ends_with_str(&l6, ";") {
        text.push(';');
    }
    text.push('\n');
    let lvl2: usize = if contains_str(&l6, "begin") && lvl < LEVEL_CAP {
        lvl + 1
    } else {
        lvl
    };
    let branch2 = if st1.in_case && !cf && contains_str(&l6, " <= ") {
        true
    } else {
        st1.branch_has_stmt
    };
    proof {
        assert(cur@.subrange(0, cur@.len() as int) =~= cur@);
        assert(l6@.subrange(0, l6@.len() as int) =~= l6@);
        assert(text@ =~= spec_line_convert(d, raw@, st, ind@).text);
    }
    (text, BodyState { in_case: st1.in_case, branch_has_stmt: branch2, level: lvl2 })
}

/// The whole body: a fold of `spec_line_convert` over its lines.
pub open spec fn spec_body_convert(d: Dialect, ls: Seq<Seq<char>>, st: BodyState, ind: Seq<char>)
    -> Seq<char>
    decreases ls.len(),
{
    if ls.len() == 0 {
        Seq::empty()
    } else {
        let o = spec_line_convert(d, ls[0], st, ind);
        o.text + spec_body_convert(d, ls.drop_first(), o.st, ind)
    }
}

/// The translation of one process body, starting from the initial state.
pub open spec fn spec_convert_process_body(d: Dialect, body: Seq<char>, ind: Seq<char>)
    -> Seq<char> {
    spec_body_convert(d, lines_spec(body), initial_body_state(), ind)
}

#[verifier::rlimit(100)]
pub fn convert_process_body(d: Dialect, body: &Vec<char>, ind: &Vec<char>) -> (r: Vec<char>)
    ensures
        r@ == spec_convert_process_body(d, body@, ind@),
{
    let ls = lines(body);
    let ghost lsv = ls@.map_values(|l: Vec<char>| l@);
    let n: usize = ls.len();
    let mut out: Vec<char> = Vec::new();
    let mut st = BodyState { in_case: false, branch_has_stmt: false, level: 0 };
    let mut i: usize = 0;
    proof {
        assert(lsv.skip(0) =~= lsv);
        assert(out@ + spec_body_convert(d, lsv, initial_body_state(), ind@) =~= spec_body_convert(
            d, lsv, initial_body_state(), ind@));
    }
    while i < n
        invariant
            n == ls@.len(),
            lsv == ls@.map_values(|l: Vec<char>| l@),
            i <= n,
            st.level <= LEVEL_CAP,
            spec_body_convert(d, lsv, initial_body_state(), ind@) == out@ + spec_body_convert(d,
                lsv.skip(i as int), st, ind@),
        decreases n - i,
    {
        proof {
            assert(lsv.skip(i as int).len() == n - i);
            assert(lsv.skip(i as int)[0] == lsv[i as int]);
            assert(lsv.skip(i as int).drop_first() =~= lsv.skip(i + 1 as int));
            assert(ls@.map_values(|l: Vec<char>| l@)[i as int] == ls@[i as int]@);
        }
        let (text, st2) = convert_line(d, &ls[i], st, ind);
        let ghost pre = out@;
        push_range(&mut out, &text, 0, text.len());
        proof {
            assert(text@.subrange(0, text@.len() as int) =~= text@);
        }
        st = st2;
        i = i + 1;
    }
    proof {
        assert(lsv.skip(n as int).len() == 0);
        assert(spec_body_convert(d, lsv.skip(n as int), st, ind@) =~= Seq::<char>::empty());
        assert(out@ =~= spec_body_convert(d, lsv, initial_body_state(), ind@));
    }
    out
}

// ---------------------------------------------------------------------------
// Processes: classification, edge lists, and the surrounding block
// ---------------------------------------------------------------------------

/// A sensitivity entry that names a clock, textually.
pub open spec fn spec_clockish(s: Seq<char>) -> bool {
    contains_sub(s, "clk"@) || contains_sub(s, "clock"@)
}

/// A sensitivity entry that names a reset, textually.
pub open spec fn spec_resetish(s: Seq<char>) -> bool {
    contains_sub(s, "reset"@) || contains_sub(s, "rst"@)
}

pub open spec fn spec_edgeish(s: Seq<char>) -> bool {
    contains_sub(s, "rising_edge"@) || contains_sub(s, "falling_edge"@)
}

/// Sequential when any sensitivity entry names a clock or an edge call.
pub open spec fn spec_is_sequential(p: ProcessV) -> bool {
    exists|i: int| 0 <= i < p.sensitivity_list.len() && (spec_clockish(p.sensitivity_list[i])
        || spec_edgeish(p.sensitivity_list[i]))
}

/// A reset is taken active-high exactly when the body compares the signal
/// against a high literal in source syntax; then the edge is the rising one.
pub open spec fn spec_reset_edge(body: Seq<char>, sig: Seq<char>) -> Seq<char> {
    if contains_sub(body, sig + " = '1'"@) || contains_sub(body, sig + " = \"1\""@) {
        "posedge "@ + sig
    } else {
        "negedge "@ + sig
    }
}

/// First dialect: clock and reset edges interleaved in sensitivity-list order.
pub open spec fn spec_edges_v_from(sl: Seq<Seq<char>>, body: Seq<char>) -> Seq<Seq<char>>
    decreases sl.len(),
{
    if sl.len() == 0 {
        Seq::empty()
    } else {
        let rest = spec_edges_v_from(sl.drop_first(), body);
        if spec_clockish(sl[0]) {
            seq!["posedge "@ + sl[0]] + rest
        } else if spec_resetish(sl[0]) {
            seq![spec_reset_edge(body, sl[0])] + rest
        } else {
            rest
        }
    }
}

/// Second dialect: clock edges first; the last reset entry contributes one
/// edge at the end.
pub open spec fn spec_clk_edges(sl: Seq<Seq<char>>) -> Seq<Seq<char>>
    decreases sl.len(),
{
    if sl.len() == 0 {
        Seq::empty()
    } else {
        let rest = spec_clk_edges(sl.drop_first());
        if spec_clockish(sl[0]) {
            seq!["posedge "@ + sl[0]] + rest
        } else {
            rest
        }
    }
}

pub open spec fn spec_last_reset(sl: Seq<Seq<char>>, body: Seq<char>) -> Option<Seq<char>>
    decreases sl.len(),
{
    if sl.len() == 0 {
        None
    } else if !spec_clockish(sl.last()) && spec_resetish(sl.last()) {
        Some(spec_reset_edge(body, sl.last()))
    } else {
        spec_last_reset(sl.drop_last(), body)
    }
}

/// The edge list of the always-block header. With no clock-like entry, a
/// plain rising clock edge is assumed.
pub open spec fn spec_edges(d: Dialect, p: ProcessV) -> Seq<Seq<char>> {
    match d {
        Dialect::Verilog => {
            let e = spec_edges_v_from(p.sensitivity_list, p.body);
            if e.len() == 0 {
                seq!["posedge clk"@]
            } else {
                e
            }
        }
        Dialect::SystemVerilog => {
            let ce = spec_clk_edges(p.sensitivity_list);
            let base: Seq<Seq<char>> = if ce.len() == 0 {
                seq!["posedge clk"@]
            } else {
                ce
            };
            match spec_last_reset(p.sensitivity_list, p.body) {
                Some(e) => base + seq![e],
                None => base,
            }
        }
    }
}

/// One process as a procedural block: a clocked block with its edge list when
/// sequential, a combinational block otherwise, around the translated body.
pub open spec fn spec_process_block(d: Dialect, p: ProcessV, ind: Seq<char>) -> Seq<char> {
    let header = if spec_is_sequential(p) {
        match d {
            Dialect::Verilog => "always @("@ + join_sep(spec_edges(d, p), " or "@)
                + ") begin\n"@,
            Dialect::SystemVerilog => "always_ff @("@ + join_sep(spec_edges(d, p), " or "@)
                + ") begin\n"@,
        }
    } else {
        match d {
            Dialect::Verilog => "always @(*) begin\n"@,
            Dialect::SystemVerilog => "always_comb begin\n"@,
        }
    };
    ind + header + spec_convert_process_body(d, p.body, ind) + ind + "end\n"@
}

fn clockish(s: &Vec<char>) -> (r: bool)
    ensures
        r == spec_clockish(s@),
{
    contains_str(s, "clk") || contains_str(s, "clock")
}

fn resetish(s: &Vec<char>) -> (r: bool)
    ensures
        r == spec_resetish(s@),
{
    contains_str(s, "reset") || contains_str(s, "rst")
}

fn edgeish(s: &Vec<char>) -> (r: bool)
    ensures
        r == spec_edgeish(s@),
{
    contains_str(s, "rising_edge") || contains_str(s, "falling_edge")
}

fn reset_edge(body: &Vec<char>, sig: &Vec<char>) -> (r: Vec<char>)
    ensures
        r@ == spec_reset_edge(body@, sig@),
{
    let mut hi = sub_vec(sig, 0, sig.len());
    push_str_chars(&mut hi, " = '1'");
    let mut hi2 = sub_vec(sig, 0, sig.len());
    push_str_chars(&mut hi2, " = \"1\"");
    proof {
        assert(sig@.subrange(0, sig@.len() as int) =~= sig@);
    }
    let mut out: Vec<char> = Vec::new();
    if contains(body, &hi) || contains(body, &hi2) {
        push_str_chars(&mut out, "posedge ");
    } else {
        push_str_chars(&mut out, "negedge ");
    }
    push_range(&mut out, sig, 0, sig.len());
    proof {
        assert(sig@.subrange(0, sig@.len() as int) =~= sig@);
    }
    out
}

fn is_sequential(p: &Process) -> (r: bool)
    ensures
        r == spec_is_sequential(p@),
{
    let n: usize = p.sensitivity_list.len();
    let ghost sl = p@.sensitivity_list;
    let mut i: usize = 0;
    while i < n
        invariant
            n == sl.len(),
            sl == p@.sensitivity_list,
            i <= n,
            forall|k: int| 0 <= k < i ==> !(spec_clockish(sl[k]) || spec_edgeish(sl[k])),
        decreases n - i,
    {
        let s = str_chars(p.sensitivity_list[i].as_str());
        proof {
            assert(p@.sensitivity_list[i as int] == p.sensitivity_list@[i as int]@);
        }
        if clockish(&s) || edgeish(&s) {
            return true;
        }
        i = i + 1;
    }
    false
}

fn edges(d: Dialect, p: &Process) -> (r: Vec<Vec<char>>)
    ensures
        r@.map_values(|e: Vec<char>| e@) == spec_edges(d, p@),
{
    let ghost sl = p@.sensitivity_list;
    let body = str_chars(p.body.as_str());
    let n: usize = p.sensitivity_list.len();
    match d {
        Dialect::Verilog => {
            let mut out: Vec<Vec<char>> = Vec::new();
            let mut i: usize = 0;
            proof {
                assert(sl.skip(0) =~= sl);
                assert(out@.map_values(|e: Vec<char>| e@) + spec_edges_v_from(sl, body@)
                    =~= spec_edges_v_from(sl, body@));
            }
            while i < n
                invariant
                    n == sl.len(),
                    sl == p@.sensitivity_list,
                    body@ == p@.body,
                    i <= n,
                    spec_edges_v_from(sl, body@) == out@.map_values(|e: Vec<char>| e@)
                        + spec_edges_v_from(sl.skip(i as int), body@),
                decreases n - i,
            {
                let ghost pre = out@.map_values(|e: Vec<char>| e@);
                proof {
                    assert(sl.skip(i as int).len() == n - i);
                    assert(sl.skip(i as int)[0] == sl[i as int]);
                    assert(sl.skip(i as int).drop_first() =~= sl.skip(i + 1 as int));
                    assert(p@.sensitivity_list[i as int] == p.sensitivity_list@[i as int]@);
                }
                let s = str_chars(p.sensitivity_list[i].as_str());
                if clockish(&s) {
                    let mut e = str_chars("posedge ");
                    push_range(&mut e, &s, 0, s.len());
                    proof {
                        assert(s@.subrange(0, s@.len() as int) =~= s@);
                    }
                    out.push(e);
                    proof {
                        assert(out@.map_values(|e2: Vec<char>| e2@) =~= pre + seq![
                            "posedge "@ + sl[i as int]]);
                    }
                } else if resetish(&s) {
                    let e = reset_edge(&body, &s);
                    out.push(e);
                    proof {
                        assert(out@.map_values(|e2: Vec<char>| e2@) =~= pre + seq![
                            spec_reset_edge(body@, sl[i as int])]);
                    }
                }
                i = i + 1;
            }
            proof {
                assert(sl.skip(n as int).len() == 0);
                assert(spec_edges_v_from(sl.skip(n as int), body@) =~= Seq::<Seq<char>>::empty());
                assert(out@.map_values(|e: Vec<char>| e@) =~= spec_edges_v_from(sl, body@));
            }
            if out.len() == 0 {
                let mut out2: Vec<Vec<char>> = Vec::new();
                out2.push(str_chars("posedge clk"));
                proof {
                    assert(out2@.map_values(|e: Vec<char>| e@) =~= seq!["posedge clk"@]);
                }
                out2
            } else {
                proof {
                    assert(out@.map_values(|e: Vec<char>| e@).len() == out@.len());
                }
                out
            }
        }
        Dialect::SystemVerilog => {
            let mut out: Vec<Vec<char>> = Vec::new();
            let mut last_reset: Option<Vec<char>> = None;
            let mut i: usize = 0;
            proof {
                assert(sl.skip(0) =~= sl);
                assert(sl.take(0) =~= Seq::<Seq<char>>::empty());
                assert(out@.map_values(|e: Vec<char>| e@) + spec_clk_edges(sl)
                    =~= spec_clk_edges(sl));
            }
            while i < n
                invariant
                    n == sl.len(),
                    sl == p@.sensitivity_list,
                    body@ == p@.body,
                    i <= n,
                    spec_clk_edges(sl) == out@.map_values(|e: Vec<char>| e@)
                        + spec_clk_edges(sl.skip(i as int)),
                    match last_reset {
                        Some(e) => spec_last_reset(sl.take(i as int), body@) == Some(e@),
                        None => spec_last_reset(sl.take(i as int), body@) is None,
                    },
                decreases n - i,
            {
                let ghost pre = out@.map_values(|e: Vec<char>| e@);
                proof {
                    assert(sl.skip(i as int).len() == n - i);
                    assert(sl.skip(i as int)[0] == sl[i as int]);
                    assert(sl.skip(i as int).drop_first() =~= sl.skip(i + 1 as int));
                    assert(sl.take(i + 1 as int).last() == sl[i as int]);
                    assert(sl.take(i + 1 as int).drop_last() =~= sl.take(i as int));
                    assert(p@.sensitivity_list[i as int] == p.sensitivity_list@[i as int]@);
                }
                let s = str_chars(p.sensitivity_list[i].as_str());
                if clockish(&s) {
                    let mut e = str_chars("posedge ");
                    push_range(&mut e, &s, 0, s.len());
                    proof {
                        assert(s@.subrange(0, s@.len() as int) =~= s@);
                    }
                    out.push(e);
                    proof {
                        assert(out@.map_values(|e2: Vec<char>| e2@) =~= pre + seq![
                            "posedge "@ + sl[i as int]]);
                    }
                } else if resetish(&s) {
                    last_reset = Some(reset_edge(&body, &s));
                }
                i = i + 1;
            }
            proof {
                assert(sl.skip(n as int).len() == 0);
                assert(spec_clk_edges(sl.skip(n as int)) =~= Seq::<Seq<char>>::empty());
                assert(out@.map_values(|e: Vec<char>| e@) =~= spec_clk_edges(sl));
                assert(sl.take(n as int) =~= sl);
            }
            let mut base = if out.len() == 0 {
                let mut out2: Vec<Vec<char>> = Vec::new();
                out2.push(str_chars("posedge clk"));
                proof {
                    assert(out2@.map_values(|e: Vec<char>| e@) =~= seq!["posedge clk"@]);
                }
                out2
            } else {
                proof {
                    assert(out@.map_values(|e: Vec<char>| e@).len() == out@.len());
                }
                out
            };
            let ghost base_v = base@.map_values(|e: Vec<char>| e@);
            match last_reset {
                Some(e) => {
                    base.push(e);
                    proof {
                        assert(base@.map_values(|e2: Vec<char>| e2@) =~= base_v + seq![
                            spec_last_reset(sl, body@)->Some_0]);
                    }
                    base
                }
                None => base,
            }
        }
    }
}

/// Renders one process as its target-dialect procedural block.
pub fn gen_process(d: Dialect, p: &Process, ind: &Vec<char>) -> (r: Vec<char>)
    ensures
        r@ == spec_process_block(d, p@, ind@),
{
    let mut out = sub_vec(ind, 0, ind.len());
    proof {
        assert(ind@.subrange(0, ind@.len() as int) =~= ind@);
    }
    if is_sequential(p) {
        match d {
            Dialect::Verilog => push_str_chars(&mut out, "always @("),
            Dialect::SystemVerilog => push_str_chars(&mut out, "always_ff @("),
        }
        let es = edges(d, p);
        let joined = join(&es, &str_chars(" or "));
        push_range(&mut out, &joined, 0, joined.len());
        proof {
            assert(joined@.subrange(0, joined@.len() as int) =~= joined@);
        }
        push_str_chars(&mut out, ") begin\n");
    } else {
        match d {
            Dialect::Verilog => push_str_chars(&mut out, "always @(*) begin\n"),
            Dialect::SystemVerilog => push_str_chars(&mut out, "always_comb begin\n"),
        }
    }
    let body = str_chars(p.body.as_str());
    let converted = convert_process_body(d, &body, ind);
    push_range(&mut out, &converted, 0, converted.len());
    push_range(&mut out, ind, 0, ind.len());
    push_str_chars(&mut out, "end\n");
    proof {
        assert(converted@.subrange(0, converted@.len() as int) =~= converted@);
        assert(ind@.subrange(0, ind@.len() as int) =~= ind@);
        assert(out@ =~= spec_process_block(d, p@, ind@));
    }
    out
}

// ---------------------------------------------------------------------------
// Concurrent statements: continuous assignments
// ---------------------------------------------------------------------------

/// Only trailing occurrences of `c` removed.
pub fn trim_char_end_exec(s: &Vec<char>, c: char) -> (r: Vec<char>)
    ensures
        r@ == trim_char_end(s@, c),
{
    let n: usize = s.len();
    let mut b: usize = n;
    while b > 0 && s[b - 1] == c
        invariant
            n == s@.len(),
            b <= n,
            forall|j: int| b <= j < n ==> s@[j] == c,
        decreases b,
    {
        b = b - 1;
    }
    proof {
        lemma_trim_char_end_at(s@, c, b as int);
    }
    let r = sub_vec(s, 0, b);
    proof {
        assert(s@.subrange(0, b as int) =~= s@.take(b as int));
    }
    r
}

/// The first index at or after `i` holding a double quote, or the length.
pub open spec fn quote_end(s: Seq<char>, i: int) -> int
    decreases s.len() - i,
{
    if i < 0 || i >= s.len() {
        s.len() as int
    } else if s[i] == '"' {
        i
    } else {
        quote_end(s, i + 1)
    }
}

proof fn lemma_quote_end_bounds(s: Seq<char>, i: int)
    requires
        0 <= i <= s.len(),
    ensures
        i <= quote_end(s, i) <= s.len(),
    decreases s.len() - i,
{
    if i < s.len() && s[i] != '"' {
        lemma_quote_end_bounds(s, i + 1);
    }
}

/// The binary digits among `s`, in order; every other character is dropped.
pub open spec fn keep01(s: Seq<char>) -> Seq<char>
    decreases s.len(),
{
    if s.len() == 0 {
        Seq::empty()
    } else if s[0] == '0' || s[0] == '1' {
        seq![s[0]] + keep01(s.skip(1))
    } else {
        keep01(s.skip(1))
    }
}

/// Quoted literals inside a rewritten condition: the binary digits between the
/// quotes become a sized binary literal; a quoted run without binary digits
/// keeps its quotes (and loses the other characters).
pub open spec fn spec_cond_literal_rewrite(s: Seq<char>) -> Seq<char>
    decreases s.len(),
{
    if s.len() == 0 {
        Seq::empty()
    } else if s[0] == '"' {
        let e = quote_end(s, 1);
        let b = keep01(s.subrange(1, e));
        let piece = if b.len() > 0 {
            dec_rep(b.len() as int) + "'b"@ + b
        } else {
            seq!['"'] + b + seq!['"']
        };
        if 1 <= e < s.len() {
            piece + spec_cond_literal_rewrite(s.skip(e + 1))
        } else {
            piece
        }
    } else {
        seq![s[0]] + spec_cond_literal_rewrite(s.skip(1))
    }
}

proof fn lemma_quote_end_shift(s: Seq<char>, base: int, j: int)
    requires
        0 <= base <= j <= s.len(),
    ensures
        quote_end(s, j) - base == quote_end(s.skip(base), j - base),
    decreases s.len() - j,
{
    let t = s.skip(base);
    if j < s.len() {
        assert(t[j - base] == s[j]);
        if s[j] != '"' {
            lemma_quote_end_shift(s, base, j + 1);
        }
    }
}

fn keep01_exec(s: &Vec<char>, a: usize, b: usize) -> (r: Vec<char>)
    requires
        a <= b <= s@.len(),
    ensures
        r@ == keep01(s@.subrange(a as int, b as int)),
{
    let ghost piece = s@.subrange(a as int, b as int);
    let mut out: Vec<char> = Vec::new();
    let mut i: usize = a;
    proof {
        assert(piece.skip(0) =~= piece);
        assert(out@ + keep01(piece) =~= keep01(piece));
    }
    while i < b
        invariant
            a <= i <= b <= s@.len(),
            piece == s@.subrange(a as int, b as int),
            keep01(piece) == out@ + keep01(piece.skip(i - a)),
        decreases b - i,
    {
        proof {
            assert(piece.skip(i - a).len() == b - i);
            assert(piece.skip(i - a)[0] == s@[i as int]);
            assert(piece.skip(i - a).skip(1) =~= piece.skip(i + 1 - a));
        }
        let c = s[i];
        if c == '0' || c == '1' {
            out.push(c);
        }
        i = i + 1;
    }
    proof {
        assert(keep01(piece.skip(b - a)) =~= Seq::<char>::empty());
        assert(out@ =~= keep01(piece));
    }
    out
}

pub fn cond_literal_rewrite(s: &Vec<char>) -> (r: Vec<char>)
    ensures
        r@ == spec_cond_literal_rewrite(s@),
{
    let n: usize = s.len();
    let mut out: Vec<char> = Vec::new();
    let mut i: usize = 0;
    proof {
        assert(s@.skip(0) =~= s@);
        assert(out@ + spec_cond_literal_rewrite(s@) =~= spec_cond_literal_rewrite(s@));
    }
    while i < n
        invariant
            n == s@.len(),
            i <= n,
            spec_cond_literal_rewrite(s@) == out@ + spec_cond_literal_rewrite(s@.skip(i as int)),
        decreases n - i,
    {
        let ghost tail = s@.skip(i as int);
        proof {
            assert(tail.len() == n - i);
            assert(forall|k: int| 0 <= k < tail.len() ==> tail[k] == s@[i + k]);
        }
        if s[i] == '"' {
            let e: usize = {
                let mut j: usize = i + 1;
                while j < n && s[j] != '"'
                    invariant
                        n == s@.len(),
                        i + 1 <= j <= n,
                        quote_end(s@, i + 1 as int) == quote_end(s@, j as int),
                    decreases n - j,
                {
                    j = j + 1;
                }
                j
            };
            proof {
                lemma_quote_end_shift(s@, i as int, i + 1);
                assert(quote_end(tail, 1) == e - i);
            }
            let b = keep01_exec(s, i + 1, e);
            proof {
                assert(s@.subrange(i + 1 as int, e as int) =~= tail.subrange(1, e - i));
            }
            if b.len() > 0 {
                let w = u128_dec_chars(b.len() as u128);
                push_range(&mut out, &w, 0, w.len());
                push_str_chars(&mut out, "'b");
                push_range(&mut out, &b, 0, b.len());
                proof {
                    assert(w@.subrange(0, w@.len() as int) =~= w@);
                    assert(b@.subrange(0, b@.len() as int) =~= b@);
                }
            } else {
                out.push('"');
                push_range(&mut out, &b, 0, b.len());
                out.push('"');
                proof {
                    assert(b@.subrange(0, b@.len() as int) =~= b@);
                }
            }
            if e < n {
                proof {
                    assert(tail.skip(e - i + 1) =~= s@.skip(e + 1 as int));
                }
                i = e + 1;
            } else {
                proof {
                    assert(spec_cond_literal_rewrite(s@) =~= out@);
                }
                return out;
            }
        } else {
            proof {
                assert(tail[0] == s@[i as int]);
                assert(tail.skip(1) =~= s@.skip(i + 1 as int));
            }
            out.push(s[i]);
            i = i + 1;
        }
    }
    proof {
        assert(s@.skip(n as int).len() == 0);
        assert(spec_cond_literal_rewrite(s@.skip(n as int)) =~= Seq::<char>::empty());
        assert(out@ =~= spec_cond_literal_rewrite(s@));
    }
    out
}

/// The condition of a conditional assignment, rewritten as inside procedural
/// bodies: comparisons against bit literals first, then bare bit literals,
/// then the remaining plain equality operators.
pub open spec fn spec_cond_rewrite(c: Seq<char>) -> Seq<char> {
    let c1 = replace_all(c, "='1'"@, " == 1'b1"@);
    let c2 = replace_all(c1, "='0'"@, " == 1'b0"@);
    let c3 = replace_all(c2, " = '1'"@, " == 1'b1"@);
    let c4 = replace_all(c3, " = '0'"@, " == 1'b0"@);
    let c5 = replace_all(c4, "'1'"@, "1'b1"@);
    let c6 = replace_all(c5, "'0'"@, "1'b0"@);
    replace_all(c6, " = "@, " == "@)
}

/// A branch value of a conditional assignment: the source statement's own
/// terminator (a trailing semicolon, with any whitespace around it) is
/// dropped — the assignment template supplies the one semicolon — and bit
/// literals take the target's form.
pub open spec fn spec_value_rewrite(v: Seq<char>) -> Seq<char> {
    let bare = trim_spec(trim_char_end(v, ';'));
    replace_all(replace_all(bare, "'1'"@, "1'b1"@), "'0'"@, "1'b0"@)
}

/// A conditional assignment taken apart: the pieces of
/// `<target> <= <value1> when <condition> else <value2>`.
pub open spec fn spec_cond_assign_parts(s: Seq<char>) -> Option<(Seq<char>, Seq<char>, Seq<char>,
    Seq<char>)> {
    let a = find_idx(s, " <= "@, 0);
    if a is Some && find_idx(s, " <= "@, a->Some_0 + 1) is None {
        let target = trim_spec(s.take(a->Some_0));
        let rest = s.skip(a->Some_0 + 4);
        let w = find_idx(rest, " when "@, 0);
        let e = find_idx(rest, " else "@, 0);
        if w is Some && e is Some && e->Some_0 >= w->Some_0 + 6 {
            let value1 = trim_spec(rest.take(w->Some_0));
            let condition = trim_spec(rest.subrange(w->Some_0 + 6, e->Some_0));
            let value2 = trim_spec(rest.skip(e->Some_0 + 6));
            Some((target, value1, condition, value2))
        } else {
            None
        }
    } else {
        None
    }
}

/// One concurrent statement rendered as a continuous assignment. The selected
/// form (`with ... select`) has no one-line equivalent and is kept, commented,
/// rather than dropped; the conditional form becomes a ternary assignment
/// with a parenthesized condition and one terminating semicolon of its own.
pub open spec fn spec_convert_concurrent(d: Dialect, stmt: Seq<char>) -> Seq<char> {
    let s1 = replace_all(stmt, "std_logic_vector("@, Seq::empty());
    let s2 = replace_all(s1, "unsigned("@, Seq::empty());
    let s3 = replace_all(s2, "signed("@, Seq::empty());
    let s4 = rebalance_parens(s3);
    if contains_sub(s4, "with "@) && contains_sub(s4, " select"@) {
        let prefix = match d {
            Dialect::Verilog => "// TODO: Convert VHDL 'with...select' statement:\n    // "@,
            Dialect::SystemVerilog =>
                "// TODO: Convert VHDL 'with...select' to SystemVerilog case:\n    // "@,
        };
        prefix + replace_all(s4, "\n"@, "\n    // "@)
    } else if contains_sub(s4, " when "@) && contains_sub(s4, " else "@)
        && spec_cond_assign_parts(s4) is Some {
        let (target, value1, condition, value2) = spec_cond_assign_parts(s4)->Some_0;
        let c1 = spec_cond_rewrite(condition);
        let c2 = if contains_sub(c1, "\""@) {
            spec_cond_literal_rewrite(c1)
        } else {
            c1
        };
        let v1 = spec_value_rewrite(value1);
        let v2 = spec_value_rewrite(value2);
        "assign "@ + target + " = ("@ + c2 + ") ? "@ + v1 + " : "@ + v2 + ";"@
    } else {
        let t1 = replace_all(s4, " <= "@, " = "@);
        let t2 = replace_all(t1, "'1'"@, "1'b1"@);
        let t3 = replace_all(t2, "'0'"@, "1'b0"@);
        if contains_sub(t3, " = "@) && !match_at(t3, "assign "@, 0) {
            "assign "@ + trim_char_end(t3, ';') + ";"@
        } else {
            t3
        }
    }
}

pub fn convert_concurrent(d: Dialect, stmt: &Vec<char>) -> (r: Vec<char>)
    ensures
        r@ == spec_convert_concurrent(d, stmt@),
{
    proof {
        reveal_strlit("");
        assert(""@ =~= Seq::<char>::empty());
    }
    let s1 = rall(stmt, "std_logic_vector(", "");
    let s2 = rall(&s1, "unsigned(", "");
    let s3 = rall(&s2, "signed(", "");
    let s4 = rebalance_parens_exec(&s3);
    if contains_str(&s4, "with ") && contains_str(&s4, " select") {
        let mut out = match d {
            Dialect::Verilog => str_chars(
                "// TODO: Convert VHDL 'with...select' statement:\n    // "),
            Dialect::SystemVerilog => str_chars(
                "// TODO: Convert VHDL 'with...select' to SystemVerilog case:\n    // "),
        };
        let body = rall(&s4, "\n", "\n    // ");
        push_range(&mut out, &body, 0, body.len());
        proof {
            assert(body@.subrange(0, body@.len() as int) =~= body@);
        }
        return out;
    }
    if contains_str(&s4, " when ") && contains_str(&s4, " else ") {
        let arrow = str_chars(" <= ");
        match find(&s4, &arrow, 0) {
            Some(a) => {
                proof {
                    reveal_strlit(" <= ");
                    lemma_find_idx_some(s4@, arrow@, 0);
                    assert(a + 4 <= s4@.len());
                }
                if find(&s4, &arrow, a + 1).is_none() {
                    let target = trim(&sub_vec(&s4, 0, a));
                    let rest = sub_vec(&s4, a + 4, s4.len());
                    proof {
                        assert(s4@.subrange(0, a as int) =~= s4@.take(a as int));
                        assert(s4@.subrange(a + 4 as int, s4@.len() as int) =~= s4@.skip(
                            a + 4 as int));
                    }
                    let w_opt = find(&rest, &str_chars(" when "), 0);
                    let e_opt = find(&rest, &str_chars(" else "), 0);
                    match (w_opt, e_opt) {
                        (Some(w), Some(e)) if e >= w && e - w >= 6 => {
                            proof {
                                reveal_strlit(" when ");
                                reveal_strlit(" else ");
                                lemma_find_idx_some(rest@, " when "@, 0);
                                lemma_find_idx_some(rest@, " else "@, 0);
                                assert(w + 6 <= rest@.len());
                                assert(e + 6 <= rest@.len());
                            }
                            let value1 = trim(&sub_vec(&rest, 0, w));
                            let condition = trim(&sub_vec(&rest, w + 6, e));
                            let value2 = trim(&sub_vec(&rest, e + 6, rest.len()));
                            proof {
                                assert(rest@.subrange(0, w as int) =~= rest@.take(w as int));
                                assert(rest@.subrange(e + 6 as int, rest@.len() as int)
                                    =~= rest@.skip(e + 6 as int));
                            }
                            let ca = rall(&condition, "='1'", " == 1'b1");
                            let cb = rall(&ca, "='0'", " == 1'b0");
                            let cc = rall(&cb, " = '1'", " == 1'b1");
                            let cd = rall(&cc, " = '0'", " == 1'b0");
                            let ce = rall(&cd, "'1'", "1'b1");
                            let cf = rall(&ce, "'0'", "1'b0");
                            let c1 = rall(&cf, " = ", " == ");
                            let c2 = if contains_str(&c1, "\"") {
                                cond_literal_rewrite(&c1)
                            } else {
                                c1
                            };
                            let bare1 = trim(&trim_char_end_exec(&value1, ';'));
                            let bare2 = trim(&trim_char_end_exec(&value2, ';'));
                            let v1 = rall(&rall(&bare1, "'1'", "1'b1"), "'0'", "1'b0");
                            let v2 = rall(&rall(&bare2, "'1'", "1'b1"), "'0'", "1'b0");
                            let mut out = str_chars("assign ");
                            push_range(&mut out, &target, 0, target.len());
                            push_str_chars(&mut out, " = (");
                            push_range(&mut out, &c2, 0, c2.len());
                            push_str_chars(&mut out, ") ? ");
                            push_range(&mut out, &v1, 0, v1.len());
                            push_str_chars(&mut out, " : ");
                            push_range(&mut out, &v2, 0, v2.len());
                            push_str_chars(&mut out, ";");
                            proof {
                                assert(target@.subrange(0, target@.len() as int) =~= target@);
                                assert(c2@.subrange(0, c2@.len() as int) =~= c2@);
                                assert(v1@.subrange(0, v1@.len() as int) =~= v1@);
                                assert(v2@.subrange(0, v2@.len() as int) =~= v2@);
                                assert(out@ =~= spec_convert_concurrent(d, stmt@));
                            }
                            return out;
                        }
                        _ => {}
                    }
                }
            }
            None => {}
        }
    }
    let t1 = rall(&s4, " <= ", " = ");
    let t2 = rall(&t1, "'1'", "1'b1");
    let t3 = rall(&t2, "'0'", "1'b0");
    if contains_str(&t3, " = ") && !starts_with_str(&t3, "assign ") {
        let mut out = str_chars("assign ");
        let trimmed = trim_char_end_exec(&t3, ';');
        push_range(&mut out, &trimmed, 0, trimmed.len());
        push_str_chars(&mut out, ";");
        proof {
            assert(trimmed@.subrange(0, trimmed@.len() as int) =~= trimmed@);
        }
        out
    } else {
        t3
    }
}

// ---------------------------------------------------------------------------
// Which names are written inside process bodies (wire -> reg promotion)
// ---------------------------------------------------------------------------

/// The left-hand side of a non-blocking assignment on this line, if any: the
/// trimmed text before the first ` <=`.
pub open spec fn line_assign_target(line: Seq<char>) -> Option<Seq<char>> {
    let t = trim_spec(line);
    match find_idx(t, " <="@, 0) {
        Some(p) => Some(trim_spec(t.take(p))),
        None => None,
    }
}

pub open spec fn targets_of_lines(ls: Seq<Seq<char>>) -> Seq<Seq<char>>
    decreases ls.len(),
{
    if ls.len() == 0 {
        Seq::empty()
    } else {
        let pre = targets_of_lines(ls.drop_last());
        match line_assign_target(ls.last()) {
            Some(n) => pre + seq![n],
            None => pre,
        }
    }
}

pub open spec fn targets_of_procs(ps: Seq<ProcessV>) -> Seq<Seq<char>>
    decreases ps.len(),
{
    if ps.len() == 0 {
        Seq::empty()
    } else {
        targets_of_procs(ps.drop_last()) + targets_of_lines(lines_spec(ps.last().body))
    }
}

/// Every name assigned inside any process body of the entity's architecture,
/// in process order and line order.
pub open spec fn spec_procedural_names(e: EntityV) -> Seq<Seq<char>> {
    match e.architecture {
        Some(a) => targets_of_procs(a.processes),
        None => Seq::empty(),
    }
}

/// A name is rendered as a register exactly when a process body assigns it.
pub open spec fn spec_is_reg(e: EntityV, name: Seq<char>) -> bool {
    spec_procedural_names(e).contains(name)
}

fn line_assign_target_exec(line: &Vec<char>) -> (r: Option<Vec<char>>)
    ensures
        match r {
            Some(n) => line_assign_target(line@) == Some(n@),
            None => line_assign_target(line@) is None,
        },
{
    let t = trim(line);
    match find(&t, &str_chars(" <="), 0) {
        Some(p) => {
            proof {
                lemma_find_idx_some(t@, " <="@, 0);
            }
            let head = sub_vec(&t, 0, p);
            proof {
                assert(t@.subrange(0, p as int) =~= t@.take(p as int));
            }
            Some(trim(&head))
        }
        None => None,
    }
}

/// The names assigned in process bodies, collected in encounter order.
pub fn collect_procedural_signals(entity: &Entity) -> (r: Vec<String>)
    ensures
        r@.map_values(|s: String| s@) == spec_procedural_names(entity@),
{
    let mut out: Vec<String> = Vec::new();
    match &entity.architecture {
        Some(arch) => {
            let ghost procs = arch@.processes;
            let np: usize = arch.processes.len();
            let mut j: usize = 0;
            proof {
                assert(procs.take(0) =~= Seq::<ProcessV>::empty());
                assert(out@.map_values(|s: String| s@) =~= targets_of_procs(procs.take(0)));
                assert(entity@.architecture == Some(arch@));
            }
            while j < np
                invariant
                    np == procs.len(),
                    procs == arch@.processes,
                    j <= np,
                    out@.map_values(|s: String| s@) == targets_of_procs(procs.take(j as int)),
                decreases np - j,
            {
                proof {
                    assert(procs.take(j + 1 as int).drop_last() =~= procs.take(j as int));
                    assert(procs.take(j + 1 as int).last() == procs[j as int]);
                    assert(arch@.processes[j as int] == arch.processes@[j as int]@);
                }
                let body = str_chars(arch.processes[j].body.as_str());
                let ls = lines(&body);
                let ghost lsv = ls@.map_values(|l: Vec<char>| l@);
                let nl: usize = ls.len();
                let mut k: usize = 0;
                let ghost base = out@.map_values(|s: String| s@);
                proof {
                    assert(lsv.take(0) =~= Seq::<Seq<char>>::empty());
                    assert(base + targets_of_lines(lsv.take(0)) =~= base);
                }
                while k < nl
                    invariant
                        nl == lsv.len(),
                        lsv == ls@.map_values(|l: Vec<char>| l@),
                        k <= nl,
                        out@.map_values(|s: String| s@) == base + targets_of_lines(lsv.take(
                            k as int)),
                    decreases nl - k,
                {
                    proof {
                        assert(lsv.take(k + 1 as int).drop_last() =~= lsv.take(k as int));
                        assert(lsv.take(k + 1 as int).last() == lsv[k as int]);
                        assert(ls@.map_values(|l: Vec<char>| l@)[k as int] == ls@[k as int]@);
                    }
                    let ghost pre = out@.map_values(|s: String| s@);
                    match line_assign_target_exec(&ls[k]) {
                        Some(n) => {
                            let name = crate::text::chars_to_string(&n);
                            out.push(name);
                            proof {
                                assert(out@.map_values(|s: String| s@) =~= pre + seq![n@]);
                            }
                        }
                        None => {}
                    }
                    k = k + 1;
                }
                proof {
                    assert(lsv.take(nl as int) =~= lsv);
                    assert(lines_spec(procs[j as int].body) == lsv);
                }
                j = j + 1;
            }
            proof {
                assert(procs.take(np as int) =~= procs);
            }
            out
        }
        None => {
            proof {
                assert(out@.map_values(|s: String| s@)
                    =~= spec_procedural_names(entity@));
            }
            out
        }
    }
}

/// Membership of a name among collected procedural names.
pub fn name_in_list(list: &Vec<String>, name: &str) -> (r: bool)
    ensures
        r == list@.map_values(|s: String| s@).contains(name@),
{
    let ghost lv = list@.map_values(|s: String| s@);
    let n: usize = list.len();
    let mut i: usize = 0;
    let target = str_chars(name);
    while i < n
        invariant
            n == lv.len(),
            lv == list@.map_values(|s: String| s@),
            target@ == name@,
            i <= n,
            forall|k: int| 0 <= k < i ==> lv[k] != name@,
        decreases n - i,
    {
        proof {
            assert(list@.map_values(|s: String| s@)[i as int] == list@[i as int]@);
        }
        let cand = str_chars(list[i].as_str());
        if seq_eq(&cand, &target) {
            return true;
        }
        i = i + 1;
    }
    false
}

// ---------------------------------------------------------------------------
// Module header, declarations, architecture body, whole module
// ---------------------------------------------------------------------------

/// One port of the module header. In the first dialect an output written by a
/// process is promoted from `wire` to `reg`; the second dialect's `logic`
/// needs no promotion.
pub open spec fn spec_port_line(d: Dialect, e: EntityV, p: PortV) -> Seq<char> {
    match d {
        Dialect::Verilog => {
            let t = spec_type_verilog(p.typ);
            let t2 = if spec_is_reg(e, p.name) && (p.direction == PortDirection::Out
                || p.direction == PortDirection::Buffer) {
                replace_all(t, "wire"@, "reg"@)
            } else {
                t
            };
            spec_dir_keyword(p.direction) + seq![' '] + t2 + seq![' '] + p.name
        }
        Dialect::SystemVerilog => spec_dir_keyword(p.direction) + seq![' '] + spec_type_sv(p.typ)
            + seq![' '] + p.name,
    }
}

/// The port list from index `i` on: one line per port, in declaration order,
/// comma-terminated except the last.
pub open spec fn spec_ports_section(d: Dialect, e: EntityV, ind: Seq<char>, i: int) -> Seq<char>
    decreases e.ports.len() - i,
{
    if 0 <= i < e.ports.len() {
        ind + spec_port_line(d, e, e.ports[i]) + (if i < e.ports.len() - 1 {
            seq![',']
        } else {
            Seq::<char>::empty()
        }) + seq!['\n'] + spec_ports_section(d, e, ind, i + 1)
    } else {
        Seq::empty()
    }
}

pub open spec fn spec_module_header(d: Dialect, e: EntityV, ind: Seq<char>) -> Seq<char> {
    "module "@ + e.name + " (\n"@ + spec_ports_section(d, e, ind, 0) + ");\n"@
}

/// One internal signal declaration. In the first dialect the `wire` keyword of
/// a sized type becomes `reg` (an internal signal is driven procedurally);
/// the second dialect declares everything as `logic`.
pub open spec fn spec_signal_line(d: Dialect, s: SignalV, ind: Seq<char>) -> Seq<char> {
    match d {
        Dialect::Verilog => ind + replace_all(spec_type_verilog(s.typ), "wire "@, "reg "@)
            + seq![' '] + s.name + ";\n"@,
        Dialect::SystemVerilog => ind + spec_type_sv(s.typ) + seq![' '] + s.name + ";\n"@,
    }
}

pub open spec fn spec_signals_section(d: Dialect, ss: Seq<SignalV>, ind: Seq<char>, i: int)
    -> Seq<char>
    decreases ss.len() - i,
{
    if 0 <= i < ss.len() {
        spec_signal_line(d, ss[i], ind) + spec_signals_section(d, ss, ind, i + 1)
    } else {
        Seq::empty()
    }
}

pub open spec fn spec_processes_section(d: Dialect, ps: Seq<ProcessV>, ind: Seq<char>, i: int)
    -> Seq<char>
    decreases ps.len() - i,
{
    if 0 <= i < ps.len() {
        seq!['\n'] + spec_process_block(d, ps[i], ind) + spec_processes_section(d, ps, ind, i + 1)
    } else {
        Seq::empty()
    }
}

pub open spec fn spec_concurrents_section(d: Dialect, cs: Seq<Seq<char>>, ind: Seq<char>, i: int)
    -> Seq<char>
    decreases cs.len() - i,
{
    if 0 <= i < cs.len() {
        seq!['\n'] + ind + spec_convert_concurrent(d, cs[i]) + seq!['\n']
            + spec_concurrents_section(d, cs, ind, i + 1)
    } else {
        Seq::empty()
    }
}

/// The architecture's rendering: signal declarations, then one procedural
/// block per process, then one continuous assignment per concurrent statement,
/// each group in source order.
pub open spec fn spec_arch_body(d: Dialect, a: ArchV, ind: Seq<char>) -> Seq<char> {
    (if a.signals.len() > 0 {
        seq!['\n'] + spec_signals_section(d, a.signals, ind, 0)
    } else {
        Seq::<char>::empty()
    }) + spec_processes_section(d, a.processes, ind, 0) + spec_concurrents_section(d,
        a.concurrent_statements, ind, 0)
}

pub open spec fn spec_module_body(d: Dialect, e: EntityV, ind: Seq<char>) -> Seq<char> {
    match e.architecture {
        Some(a) => spec_arch_body(d, a, ind),
        None => Seq::empty(),
    }
}

/// A whole module: header, body, footer. Generation is a pure function of the
/// entity, so equal entities always render to identical text.
pub open spec fn spec_generate(d: Dialect, e: EntityV, ind: Seq<char>) -> Seq<char> {
    spec_module_header(d, e, ind) + spec_module_body(d, e, ind) + "endmodule\n"@
}

fn gen_port_line(d: Dialect, entity: &Entity, p: &Port, names: &Vec<String>) -> (r: Vec<char>)
    requires
        names@.map_values(|s: String| s@) =~= spec_procedural_names(entity@),
    ensures
        r@ == spec_port_line(d, entity@, p@),
{
    let mut out: Vec<char> = Vec::new();
    push_str_chars(&mut out, p.direction.to_verilog());
    out.push(' ');
    match d {
        Dialect::Verilog => {
            let t = str_chars(p.port_type.to_verilog().as_str());
            let promote = name_in_list(names, p.name.as_str()) && (matches!(p.direction,
                PortDirection::Out) || matches!(p.direction, PortDirection::Buffer));
            let t2 = if promote {
                rall(&t, "wire", "reg")
            } else {
                t
            };
            push_range(&mut out, &t2, 0, t2.len());
            proof {
                assert(t2@.subrange(0, t2@.len() as int) =~= t2@);
            }
        }
        Dialect::SystemVerilog => {
            let t = p.port_type.to_systemverilog();
            push_str_chars(&mut out, t.as_str());
        }
    }
    out.push(' ');
    push_str_chars(&mut out, p.name.as_str());
    proof {
        assert(out@ =~= spec_port_line(d, entity@, p@));
    }
    out
}

pub fn gen_module_header(d: Dialect, entity: &Entity, names: &Vec<String>, ind: &Vec<char>)
    -> (r: Vec<char>)
    requires
        names@.map_values(|s: String| s@) =~= spec_procedural_names(entity@),
    ensures
        r@ == spec_module_header(d, entity@, ind@),
{
    let mut out = str_chars("module ");
    push_str_chars(&mut out, entity.name.as_str());
    push_str_chars(&mut out, " (\n");
    let ghost ports = entity@.ports;
    let n: usize = entity.ports.len();
    let ghost mid = out@;
    let mut i: usize = 0;
    while i < n
        invariant
            n == ports.len(),
            ports == entity@.ports,
            names@.map_values(|s: String| s@) =~= spec_procedural_names(entity@),
            i <= n,
            out@ + spec_ports_section(d, entity@, ind@, i as int) == mid + spec_ports_section(d,
                entity@, ind@, 0),
        decreases n - i,
    {
        let ghost pre = out@;
        proof {
            assert(entity@.ports[i as int] == entity.ports@[i as int]@);
        }
        push_range(&mut out, ind, 0, ind.len());
        let line = gen_port_line(d, entity, &entity.ports[i], names);
        push_range(&mut out, &line, 0, line.len());
        if i < n - 1 {
            out.push(',');
        }
        out.push('\n');
        proof {
            assert(ind@.subrange(0, ind@.len() as int) =~= ind@);
            assert(line@.subrange(0, line@.len() as int) =~= line@);
            assert(pre + spec_ports_section(d, entity@, ind@, i as int) =~= out@
                + spec_ports_section(d, entity@, ind@, i + 1 as int));
        }
        i = i + 1;
    }
    push_str_chars(&mut out, ");\n");
    proof {
        assert(spec_ports_section(d, entity@, ind@, n as int) =~= Seq::<char>::empty());
        assert(out@ =~= spec_module_header(d, entity@, ind@));
    }
    out
}

/// Generation errors. Rendering itself never fails — unsupported constructs
/// degrade to commented passthrough — so this is only the error type of the
/// generators' `Result` interface.
#[derive(Debug, Clone, Copy, PartialEq, Eq, Structural)]
pub enum GenError {
    /// The entity handed in was structurally unusable.
    InvalidEntity,
}

/// Renders one entity (with its optional architecture) into the chosen
/// dialect's text, with the default four-space indentation. Rendering never
/// fails; the `Result` is the operation's interface shape.
pub fn generate(entity: &Entity, dialect: Dialect) -> (r: Result<String, GenError>)
    ensures
        r is Ok,
        r->Ok_0@ == spec_generate(dialect, entity@, "    "@),
{
    let ind = str_chars("    ");
    let names = collect_procedural_signals(entity);
    let mut out = gen_module_header(dialect, entity, &names, &ind);
    let body = gen_module_body(dialect, entity, &ind);
    push_range(&mut out, &body, 0, body.len());
    push_str_chars(&mut out, "endmodule\n");
    proof {
        assert(body@.subrange(0, body@.len() as int) =~= body@);
        assert(out@ =~= spec_generate(dialect, entity@, "    "@));
    }
    Ok(crate::text::chars_to_string(&out))
}

fn gen_signal_line(d: Dialect, s: &Signal, ind: &Vec<char>) -> (r: Vec<char>)
    ensures
        r@ == spec_signal_line(d, s@, ind@),
{
    let mut out = sub_vec(ind, 0, ind.len());
    proof {
        assert(ind@.subrange(0, ind@.len() as int) =~= ind@);
    }
    match d {
        Dialect::Verilog => {
            let t = str_chars(s.signal_type.to_verilog().as_str());
            let t2 = rall(&t, "wire ", "reg ");
            push_range(&mut out, &t2, 0, t2.len());
            proof {
                assert(t2@.subrange(0, t2@.len() as int) =~= t2@);
            }
        }
        Dialect::SystemVerilog => {
            let t = s.signal_type.to_systemverilog();
            push_str_chars(&mut out, t.as_str());
        }
    }
    out.push(' ');
    push_str_chars(&mut out, s.name.as_str());
    push_str_chars(&mut out, ";\n");
    proof {
        assert(out@ =~= spec_signal_line(d, s@, ind@));
    }
    out
}

/// The rendering of the architecture, if the entity has one: declarations,
/// procedural blocks, continuous assignments.
pub fn gen_module_body(d: Dialect, entity: &Entity, ind: &Vec<char>) -> (r: Vec<char>)
    ensures
        r@ == spec_module_body(d, entity@, ind@),
{
    let mut out: Vec<char> = Vec::new();
    match &entity.architecture {
        Some(arch) => {
            proof {
                assert(entity@.architecture == Some(arch@));
            }
            // signal declarations
            let ghost sigs = arch@.signals;
            let ns: usize = arch.signals.len();
            if ns > 0 {
                out.push('\n');
            }
            let ghost sig_base = out@;
            let mut i: usize = 0;
            while i < ns
                invariant
                    ns == sigs.len(),
                    sigs == arch@.signals,
                    i <= ns,
                    out@ + spec_signals_section(d, sigs, ind@, i as int) == sig_base
                        + spec_signals_section(d, sigs, ind@, 0),
                decreases ns - i,
            {
                let ghost pre = out@;
                proof {
                    assert(arch@.signals[i as int] == arch.signals@[i as int]@);
                }
                let line = gen_signal_line(d, &arch.signals[i], ind);
                push_range(&mut out, &line, 0, line.len());
                proof {
                    assert(line@.subrange(0, line@.len() as int) =~= line@);
                    assert(pre + spec_signals_section(d, sigs, ind@, i as int) =~= out@
                        + spec_signals_section(d, sigs, ind@, i + 1 as int));
                }
                i = i + 1;
            }
            proof {
                assert(spec_signals_section(d, sigs, ind@, ns as int) =~= Seq::<char>::empty());
            }
            // processes
            let ghost procs = arch@.processes;
            let np: usize = arch.processes.len();
            let ghost proc_base = out@;
            let mut j: usize = 0;
            while j < np
                invariant
                    np == procs.len(),
                    procs == arch@.processes,
                    j <= np,
                    out@ + spec_processes_section(d, procs, ind@, j as int) == proc_base
                        + spec_processes_section(d, procs, ind@, 0),
                decreases np - j,
            {
                let ghost pre = out@;
                proof {
                    assert(arch@.processes[j as int] == arch.processes@[j as int]@);
                }
                out.push('\n');
                let block = gen_process(d, &arch.processes[j], ind);
                push_range(&mut out, &block, 0, block.len());
                proof {
                    assert(block@.subrange(0, block@.len() as int) =~= block@);
                    assert(pre + spec_processes_section(d, procs, ind@, j as int) =~= out@
                        + spec_processes_section(d, procs, ind@, j + 1 as int));
                }
                j = j + 1;
            }
            proof {
                assert(spec_processes_section(d, procs, ind@, np as int)
                    =~= Seq::<char>::empty());
            }
            // concurrent statements
            let ghost cs = arch@.concurrent_statements;
            let nc: usize = arch.concurrent_statements.len();
            let ghost conc_base = out@;
            let mut k: usize = 0;
            while k < nc
                invariant
                    nc == cs.len(),
                    cs == arch@.concurrent_statements,
                    k <= nc,
                    out@ + spec_concurrents_section(d, cs, ind@, k as int) == conc_base
                        + spec_concurrents_section(d, cs, ind@, 0),
                decreases nc - k,
            {
                let ghost pre = out@;
                proof {
                    assert(arch@.concurrent_statements[k as int]
                        == arch.concurrent_statements@[k as int]@);
                }
                out.push('\n');
                push_range(&mut out, ind, 0, ind.len());
                let stmt = str_chars(arch.concurrent_statements[k].as_str());
                let conv = convert_concurrent(d, &stmt);
                push_range(&mut out, &conv, 0, conv.len());
                out.push('\n');
                proof {
                    assert(ind@.subrange(0, ind@.len() as int) =~= ind@);
                    assert(conv@.subrange(0, conv@.len() as int) =~= conv@);
                    assert(pre + spec_concurrents_section(d, cs, ind@, k as int) =~= out@
                        + spec_concurrents_section(d, cs, ind@, k + 1 as int));
                }
                k = k + 1;
            }
            proof {
                assert(spec_concurrents_section(d, cs, ind@, nc as int)
                    =~= Seq::<char>::empty());
                assert(out@ =~= spec_module_body(d, entity@, ind@));
            }
            out
        }
        None => {
            proof {
                assert(out@ =~= spec_module_body(d, entity@, ind@));
            }
            out
        }
    }
}

} // verus!
