//! The character-level lifter: scans the source text directly for entity
//! declarations, port clauses, architectures, signals, processes and
//! concurrent statements, and builds the IR.

use vstd::prelude::*;

use crate::errors::{ParseError, ParseErrorV};
use crate::ir::model::{Architecture, ArchV, Entity, EntityV, Generic, GenericV, Port, PortV,
    PortDirection, Process, ProcessV, Signal, SignalV, VHDLType, TypeV, VectorRange, RangeV,
    spec_dir_from};
use crate::text::{all_digits, chars_to_string, digits_val, find, find_idx, is_digit_char,
    is_space, is_space_char, is_word_char, is_word, is_digit, lower_seq, lemma_find_idx_some,
    match_at, match_at_ci, split, split_spec, str_chars, sub_vec, to_lower, trim, trim_spec,
    seq_eq};

verus! {

// ---------------------------------------------------------------------------
// Scanning primitives (absolute indices into one sequence)
// ---------------------------------------------------------------------------

/// The first index at or after `i` whose character is not whitespace.
pub open spec fn ws_end(s: Seq<char>, i: int) -> int
    decreases s.len() - i,
{
    if i < 0 || i >= s.len() {
        i
    } else if is_space_char(s[i]) {
        ws_end(s, i + 1)
    } else {
        i
    }
}

/// The first index at or after `i` whose character is not a word character.
pub open spec fn word_end(s: Seq<char>, i: int) -> int
    decreases s.len() - i,
{
    if i < 0 || i >= s.len() {
        i
    } else if is_word_char(s[i]) {
        word_end(s, i + 1)
    } else {
        i
    }
}

/// The first index at or after `i` whose character is not a decimal digit.
pub open spec fn digit_end(s: Seq<char>, i: int) -> int
    decreases s.len() - i,
{
    if i < 0 || i >= s.len() {
        i
    } else if is_digit_char(s[i]) {
        digit_end(s, i + 1)
    } else {
        i
    }
}

pub proof fn lemma_ws_end_bounds(s: Seq<char>, i: int)
    requires
        0 <= i <= s.len(),
    ensures
        i <= ws_end(s, i) <= s.len(),
    decreases s.len() - i,
{
    if i < s.len() && is_space_char(s[i]) {
        lemma_ws_end_bounds(s, i + 1);
    }
}

pub proof fn lemma_word_end_bounds(s: Seq<char>, i: int)
    requires
        0 <= i <= s.len(),
    ensures
        i <= word_end(s, i) <= s.len(),
    decreases s.len() - i,
{
    if i < s.len() && is_word_char(s[i]) {
        lemma_word_end_bounds(s, i + 1);
    }
}

pub proof fn lemma_digit_end_bounds(s: Seq<char>, i: int)
    requires
        0 <= i <= s.len(),
    ensures
        i <= digit_end(s, i) <= s.len(),
    decreases s.len() - i,
{
    if i < s.len() && is_digit_char(s[i]) {
        lemma_digit_end_bounds(s, i + 1);
    }
}

pub fn ws_end_x(s: &Vec<char>, i: usize) -> (r: usize)
    requires
        i <= s@.len(),
    ensures
        r as int == ws_end(s@, i as int),
        i <= r <= s@.len(),
{
    let n: usize = s.len();
    let mut j: usize = i;
    while j < n && is_space(s[j])
        invariant
            n == s@.len(),
            i <= j <= n,
            ws_end(s@, i as int) == ws_end(s@, j as int),
        decreases n - j,
    {
        j = j + 1;
    }
    j
}

pub fn word_end_x(s: &Vec<char>, i: usize) -> (r: usize)
    requires
        i <= s@.len(),
    ensures
        r as int == word_end(s@, i as int),
        i <= r <= s@.len(),
{
    let n: usize = s.len();
    let mut j: usize = i;
    while j < n && is_word(s[j])
        invariant
            n == s@.len(),
            i <= j <= n,
            word_end(s@, i as int) == word_end(s@, j as int),
        decreases n - j,
    {
        j = j + 1;
    }
    j
}

pub fn digit_end_x(s: &Vec<char>, i: usize) -> (r: usize)
    requires
        i <= s@.len(),
    ensures
        r as int == digit_end(s@, i as int),
        i <= r <= s@.len(),
{
    let n: usize = s.len();
    let mut j: usize = i;
    while j < n && is_digit(s[j])
        invariant
            n == s@.len(),
            i <= j <= n,
            digit_end(s@, i as int) == digit_end(s@, j as int),
        decreases n - j,
    {
        j = j + 1;
    }
    j
}

/// Matches `kw` case-insensitively at `i`.
pub fn match_kw(s: &Vec<char>, kw: &str, i: usize) -> (r: bool)
    ensures
        r == match_at_ci(s@, kw@, i as int),
{
    crate::text::match_here_ci(s, &str_chars(kw), i)
}

// ---------------------------------------------------------------------------
// The closing form of an entity or architecture region:
// `end [<keyword>] [<word>] ;` with at least one space after `end`
// ---------------------------------------------------------------------------

/// After an optional trailing word starting at `p`, optional whitespace, a
/// semicolon: the index just past it.
pub open spec fn after_word_semi(s: Seq<char>, p: int) -> Option<int> {
    let we = word_end(s, p);
    if we > p {
        let sp = ws_end(s, we);
        if sp < s.len() && s[sp] == ';' {
            Some(sp + 1)
        } else {
            None
        }
    } else {
        if p < s.len() && s[p] == ';' {
            Some(p + 1)
        } else {
            None
        }
    }
}

/// The closing form starting at `q`: `end`, whitespace, optionally the given
/// keyword and whitespace, optionally a word, a semicolon. Yields the index
/// just past the semicolon.
pub open spec fn end_match(s: Seq<char>, kw: Seq<char>, q: int) -> Option<int> {
    if match_at_ci(s, "end"@, q) {
        let w = ws_end(s, q + 3);
        if w == q + 3 {
            None
        } else {
            let kw_branch = if match_at_ci(s, kw, w) && ws_end(s, w + kw.len()) > w + kw.len() {
                after_word_semi(s, ws_end(s, w + kw.len()))
            } else {
                None
            };
            match kw_branch {
                Some(r) => Some(r),
                None => after_word_semi(s, w),
            }
        }
    } else {
        None
    }
}

/// The earliest closing form at or after `q`.
pub open spec fn find_end_from(s: Seq<char>, kw: Seq<char>, q: int) -> Option<(int, int)>
    decreases s.len() - q,
{
    if q < 0 || q >= s.len() {
        None
    } else {
        match end_match(s, kw, q) {
            Some(e) => Some((q, e)),
            None => find_end_from(s, kw, q + 1),
        }
    }
}

/// The latest closing form at or after `lo`, scanned from `hi` down.
pub open spec fn rfind_end_upto(s: Seq<char>, kw: Seq<char>, lo: int, hi: int) -> Option<(int,
    int)>
    decreases hi - lo + 1,
{
    if hi < lo {
        None
    } else {
        match end_match(s, kw, hi) {
            Some(e) => Some((hi, e)),
            None => rfind_end_upto(s, kw, lo, hi - 1),
        }
    }
}

fn after_word_semi_x(s: &Vec<char>, p: usize) -> (r: Option<usize>)
    requires
        p <= s@.len(),
    ensures
        match r {
            Some(e) => after_word_semi(s@, p as int) == Some(e as int) && p < e <= s@.len(),
            None => after_word_semi(s@, p as int) is None,
        },
{
    let n: usize = s.len();
    let we = word_end_x(s, p);
    if we > p {
        let sp = ws_end_x(s, we);
        if sp < n && s[sp] == ';' {
            Some(sp + 1)
        } else {
            None
        }
    } else {
        if p < n && s[p] == ';' {
            Some(p + 1)
        } else {
            None
        }
    }
}

fn end_match_x(s: &Vec<char>, kw: &str, q: usize) -> (r: Option<usize>)
    requires
        q <= s@.len(),
    ensures
        match r {
            Some(e) => end_match(s@, kw@, q as int) == Some(e as int) && q < e <= s@.len(),
            None => end_match(s@, kw@, q as int) is None,
        },
{
    if !match_kw(s, "end", q) {
        return None;
    }
    let n: usize = s.len();
    proof {
        reveal_strlit("end");
        assert("end"@.len() == 3);
        assert(q + 3 <= n);
    }
    let w = ws_end_x(s, q + 3);
    if w == q + 3 {
        return None;
    }
    let kwv = str_chars(kw);
    let kwlen = kwv.len();
    assert(kwlen == kw@.len());
    if match_kw(s, kw, w) {
        assert(w + kwlen <= n);
        let w2 = ws_end_x(s, w + kwlen);
        if w2 > w + kwlen {
            match after_word_semi_x(s, w2) {
                Some(e) => {
                    return Some(e);
                }
                None => {}
            }
        }
    }
    after_word_semi_x(s, w)
}

/// The earliest closing form at or after `q`, as `(start, end)`.
fn find_end_x(s: &Vec<char>, kw: &str, q: usize) -> (r: Option<(usize, usize)>)
    requires
        q <= s@.len(),
    ensures
        match r {
            Some((st, e)) => find_end_from(s@, kw@, q as int) == Some((st as int, e as int))
                && q <= st < e <= s@.len(),
            None => find_end_from(s@, kw@, q as int) is None,
        },
{
    let n: usize = s.len();
    let mut i: usize = q;
    while i < n
        invariant
            n == s@.len(),
            q <= i <= n,
            find_end_from(s@, kw@, q as int) == find_end_from(s@, kw@, i as int),
        decreases n - i,
    {
        match end_match_x(s, kw, i) {
            Some(e) => {
                return Some((i, e));
            }
            None => {}
        }
        i = i + 1;
    }
    None
}

/// The latest closing form between `lo` and `hi`, as `(start, end)`.
fn rfind_end_x(s: &Vec<char>, kw: &str, lo: usize, hi: usize) -> (r: Option<(usize, usize)>)
    requires
        lo <= s@.len(),
        hi <= s@.len(),
    ensures
        match r {
            Some((st, e)) => rfind_end_upto(s@, kw@, lo as int, hi as int) == Some((st as int,
                e as int)) && st < e <= s@.len() && lo <= st <= hi,
            None => rfind_end_upto(s@, kw@, lo as int, hi as int) is None,
        },
{
    let mut i: usize = hi;
    loop
        invariant
            lo <= s@.len(),
            hi <= s@.len(),
            i <= hi,
            rfind_end_upto(s@, kw@, lo as int, hi as int) == rfind_end_upto(s@, kw@, lo as int,
                i as int),
        decreases i,
    {
        if i < lo {
            return None;
        }
        match end_match_x(s, kw, i) {
            Some(e) => {
                return Some((i, e));
            }
            None => {}
        }
        if i == 0 {
            assert(rfind_end_upto(s@, kw@, lo as int, -1) is None);
            return None;
        }
        i = i - 1;
    }
}

// ---------------------------------------------------------------------------
// Entity declarations
// ---------------------------------------------------------------------------

/// One entity declaration found in the text: where it starts, where its name
/// stands, and where the whole declaration ends (just past its semicolon).
pub struct EntityHit {
    pub start: int,
    pub name_start: int,
    pub name_end: int,
    pub end: int,
}

/// An entity declaration headed at `p`: the keyword, whitespace, a name,
/// whitespace, `is`, and somewhere after it the earliest closing form.
pub open spec fn entity_match_at(s: Seq<char>, p: int) -> Option<EntityHit> {
    if match_at_ci(s, "entity"@, p) {
        let ns = ws_end(s, p + 6);
        if ns == p + 6 {
            None
        } else {
            let ne = word_end(s, ns);
            if ne == ns {
                None
            } else {
                let ise = ws_end(s, ne);
                if ise == ne {
                    None
                } else {
                    if match_at_ci(s, "is"@, ise) {
                        match find_end_from(s, "entity"@, ise + 2) {
                            Some((q, e)) => Some(EntityHit {
                                start: p,
                                name_start: ns,
                                name_end: ne,
                                end: e,
                            }),
                            None => None,
                        }
                    } else {
                        None
                    }
                }
            }
        }
    } else {
        None
    }
}

/// All entity declarations, leftmost first; scanning resumes after each match.
pub open spec fn scan_entity_hits(s: Seq<char>, from: int) -> Seq<EntityHit>
    decreases s.len() - from,
{
    if from < 0 || from >= s.len() {
        Seq::empty()
    } else {
        match entity_match_at(s, from) {
            Some(h) => {
                if from < h.end <= s.len() {
                    seq![h] + scan_entity_hits(s, h.end)
                } else {
                    scan_entity_hits(s, from + 1)
                }
            }
            None => scan_entity_hits(s, from + 1),
        }
    }
}

fn entity_match_at_x(s: &Vec<char>, p: usize) -> (r: Option<(usize, usize, usize)>)
    requires
        p <= s@.len(),
    ensures
        match r {
            Some((ns, ne, e)) => entity_match_at(s@, p as int) == Some(EntityHit {
                start: p as int,
                name_start: ns as int,
                name_end: ne as int,
                end: e as int,
            }) && p < ns <= ne <= s@.len() && p < e <= s@.len(),
            None => entity_match_at(s@, p as int) is None,
        },
{
    let n: usize = s.len();
    if !match_kw(s, "entity", p) {
        return None;
    }
    proof {
        reveal_strlit("entity");
        assert(p + 6 <= n);
    }
    let ns = ws_end_x(s, p + 6);
    if ns == p + 6 {
        return None;
    }
    let ne = word_end_x(s, ns);
    if ne == ns {
        return None;
    }
    let ise = ws_end_x(s, ne);
    if ise == ne {
        return None;
    }
    if !match_kw(s, "is", ise) {
        return None;
    }
    proof {
        reveal_strlit("is");
        assert(ise + 2 <= n);
    }
    match find_end_x(s, "entity", ise + 2) {
        Some((_q, e)) => Some((ns, ne, e)),
        None => None,
    }
}

// ---------------------------------------------------------------------------
// The port clause of one entity declaration
// ---------------------------------------------------------------------------

/// A closing parenthesis at `i` followed (after whitespace) by a semicolon.
pub open spec fn closer_at(t: Seq<char>, i: int) -> bool {
    &&& 0 <= i < t.len()
    &&& t[i] == ')'
    &&& ws_end(t, i + 1) < t.len()
    &&& t[ws_end(t, i + 1)] == ';'
}

/// The last closer at or before `i`.
pub open spec fn last_closer(t: Seq<char>, i: int) -> Option<int>
    decreases i + 1,
{
    if i < 0 {
        None
    } else if closer_at(t, i) {
        Some(i)
    } else {
        last_closer(t, i - 1)
    }
}

/// The keyword `port`, optional whitespace, an opening parenthesis: the index
/// of the parenthesis.
pub open spec fn port_open_at(t: Seq<char>, p: int) -> Option<int> {
    if match_at_ci(t, "port"@, p) {
        let w = ws_end(t, p + 4);
        if w < t.len() && t[w] == '(' {
            Some(w)
        } else {
            None
        }
    } else {
        None
    }
}

/// The capture of the port clause: everything between the first `port (` and
/// the last `);` after it. Nesting inside is kept as-is.
pub open spec fn find_port_clause(t: Seq<char>, from: int) -> Option<(int, int)>
    decreases t.len() - from,
{
    if from < 0 || from >= t.len() {
        None
    } else {
        match port_open_at(t, from) {
            Some(w) => {
                match last_closer(t, t.len() - 1) {
                    Some(z) => {
                        if z > w {
                            Some((w + 1, z))
                        } else {
                            find_port_clause(t, from + 1)
                        }
                    }
                    None => find_port_clause(t, from + 1),
                }
            }
            None => find_port_clause(t, from + 1),
        }
    }
}

fn closer_at_x(t: &Vec<char>, i: usize) -> (r: bool)
    requires
        i < t@.len(),
    ensures
        r == closer_at(t@, i as int),
{
    let n: usize = t.len();
    if t[i] != ')' {
        return false;
    }
    let w = ws_end_x(t, i + 1);
    w < n && t[w] == ';'
}

fn last_closer_x(t: &Vec<char>) -> (r: Option<usize>)
    ensures
        match r {
            Some(z) => last_closer(t@, t@.len() - 1) == Some(z as int) && z < t@.len(),
            None => last_closer(t@, t@.len() - 1) is None,
        },
{
    let n: usize = t.len();
    let mut i: usize = n;
    while i > 0
        invariant
            n == t@.len(),
            i <= n,
            last_closer(t@, n - 1) == last_closer(t@, i - 1),
        decreases i,
    {
        if closer_at_x(t, i - 1) {
            return Some(i - 1);
        }
        i = i - 1;
    }
    None
}

fn find_port_clause_x(t: &Vec<char>) -> (r: Option<(usize, usize)>)
    ensures
        match r {
            Some((a, b)) => find_port_clause(t@, 0) == Some((a as int, b as int)) && a <= b
                <= t@.len(),
            None => find_port_clause(t@, 0) is None,
        },
{
    let n: usize = t.len();
    let last = last_closer_x(t);
    let mut p: usize = 0;
    while p < n
        invariant
            n == t@.len(),
            p <= n,
            find_port_clause(t@, 0) == find_port_clause(t@, p as int),
            match last {
                Some(z) => last_closer(t@, n - 1) == Some(z as int) && z < n,
                None => last_closer(t@, n - 1) is None,
            },
        decreases n - p,
    {
        if match_kw(t, "port", p) {
            proof {
                reveal_strlit("port");
                assert(p + 4 <= n);
            }
            let w = ws_end_x(t, p + 4);
            if w < n && t[w] == '(' {
                match last {
                    Some(z) => {
                        if z > w {
                            return Some((w + 1, z));
                        }
                    }
                    None => {}
                }
            }
        }
        p = p + 1;
    }
    None
}

// ---------------------------------------------------------------------------
// One port declaration: `name[, name]* : <direction> <type>`
// ---------------------------------------------------------------------------

pub open spec fn is_name_class(c: char) -> bool {
    is_word_char(c) || c == ',' || is_space_char(c)
}

/// The first index at or after `i` outside the name-list character class.
pub open spec fn class_end(t: Seq<char>, i: int) -> int
    decreases t.len() - i,
{
    if i < 0 || i >= t.len() {
        i
    } else if is_name_class(t[i]) {
        class_end(t, i + 1)
    } else {
        i
    }
}

/// The shape of one (trimmed) port declaration: where the colon stands, where
/// the direction word stands, and where the type text begins.
pub struct DeclShape {
    pub colon: int,
    pub dir_start: int,
    pub dir_end: int,
    pub type_start: int,
}

/// A declaration parses when a non-empty name list is followed by a colon, a
/// direction word, at least one space, and one line of type text.
pub open spec fn decl_shape(t: Seq<char>) -> Option<DeclShape> {
    let ce = class_end(t, 0);
    if 0 < ce < t.len() && t[ce] == ':' {
        let d0 = ws_end(t, ce + 1);
        let de = word_end(t, d0);
        if de > d0 && de < t.len() && ws_end(t, de) > de {
            let ts = ws_end(t, de);
            if ts < t.len() && (forall|k: int| ts <= k < t.len() ==> t[k] != '\n') {
                Some(DeclShape { colon: ce, dir_start: d0, dir_end: de, type_start: ts })
            } else {
                None
            }
        } else {
            None
        }
    } else {
        None
    }
}

fn class_end_x(t: &Vec<char>, i: usize) -> (r: usize)
    requires
        i <= t@.len(),
    ensures
        r as int == class_end(t@, i as int),
        i <= r <= t@.len(),
{
    let n: usize = t.len();
    let mut j: usize = i;
    while j < n && (is_word(t[j]) || t[j] == ',' || is_space(t[j]))
        invariant
            n == t@.len(),
            i <= j <= n,
            class_end(t@, i as int) == class_end(t@, j as int),
        decreases n - j,
    {
        j = j + 1;
    }
    j
}

fn decl_shape_x(t: &Vec<char>) -> (r: Option<(usize, usize, usize, usize)>)
    ensures
        match r {
            Some((ce, d0, de, ts)) => decl_shape(t@) == Some(DeclShape {
                colon: ce as int,
                dir_start: d0 as int,
                dir_end: de as int,
                type_start: ts as int,
            }) && 0 < ce < t@.len() && ce < d0 <= de <= t@.len() && de < ts <= t@.len()
                && ts < t@.len(),
            None => decl_shape(t@) is None,
        },
{
    let n: usize = t.len();
    let ce = class_end_x(t, 0);
    if !(0 < ce && ce < n && t[ce] == ':') {
        return None;
    }
    let d0 = ws_end_x(t, ce + 1);
    let de = word_end_x(t, d0);
    if !(de > d0 && de < n) {
        return None;
    }
    let ts = ws_end_x(t, de);
    if !(ts > de) {
        return None;
    }
    if !(ts < n) {
        return None;
    }
    let mut k: usize = ts;
    while k < n
        invariant
            n == t@.len(),
            ts <= k <= n,
            forall|m: int| ts <= m < k ==> t@[m] != '\n',
            decl_shape(t@) is Some ==> decl_shape(t@)->Some_0.type_start == ts as int,
        decreases n - k,
    {
        if t[k] == '\n' {
            return None;
        }
        k = k + 1;
    }
    Some((ce, d0, de, ts))
}

// ---------------------------------------------------------------------------
// Types: scalars, vector forms with literal bounds, custom names
// ---------------------------------------------------------------------------

/// The vector keyword at the head of a (lowered) type text: its kind and its
/// length. The four keywords share no prefix, so the order of the tests does
/// not matter beyond matching the source grammar's.
pub open spec fn vector_prefix(tl: Seq<char>) -> Option<(int, int)> {
    if match_at(tl, "std_logic_vector"@, 0) {
        Some((0int, 16int))
    } else if match_at(tl, "bit_vector"@, 0) {
        Some((1int, 10int))
    } else if match_at(tl, "signed"@, 0) {
        Some((2int, 6int))
    } else if match_at(tl, "unsigned"@, 0) {
        Some((3int, 8int))
    } else {
        None
    }
}

/// A parsed vector form: which keyword, the two bound-digit runs, and the
/// declared direction.
pub struct VecForm {
    pub kind: int,
    pub left: Seq<char>,
    pub downto: bool,
    pub right: Seq<char>,
}

/// The rest of a vector form after the direction keyword: whitespace, digits,
/// optional whitespace, a closing parenthesis ending the text.
pub open spec fn vector_tail(tl: Seq<char>, d1s: int, d1e: int, downto: bool, q: int, k: int)
    -> Option<VecForm> {
    let w4 = ws_end(tl, q);
    if w4 > q {
        let d2e = digit_end(tl, w4);
        if d2e > w4 {
            let w5 = ws_end(tl, d2e);
            if w5 < tl.len() && tl[w5] == ')' && w5 + 1 == tl.len() {
                Some(VecForm {
                    kind: k,
                    left: tl.subrange(d1s, d1e),
                    downto,
                    right: tl.subrange(w4, d2e),
                })
            } else {
                None
            }
        } else {
            None
        }
    } else {
        None
    }
}

/// A whole vector form: keyword, `(`, digits, `downto` or `to`, digits, `)`,
/// nothing after.
pub open spec fn vector_form(tl: Seq<char>) -> Option<VecForm> {
    match vector_prefix(tl) {
        Some((k, kl)) => {
            let w1 = ws_end(tl, kl);
            if w1 < tl.len() && tl[w1] == '(' {
                let w2 = ws_end(tl, w1 + 1);
                let d1e = digit_end(tl, w2);
                if d1e > w2 {
                    let w3 = ws_end(tl, d1e);
                    if w3 > d1e {
                        if match_at(tl, "downto"@, w3) {
                            vector_tail(tl, w2, d1e, true, w3 + 6, k)
                        } else if match_at(tl, "to"@, w3) {
                            vector_tail(tl, w2, d1e, false, w3 + 2, k)
                        } else {
                            None
                        }
                    } else {
                        None
                    }
                } else {
                    None
                }
            } else {
                None
            }
        }
        None => None,
    }
}

pub open spec fn vec_variant(k: int, r: RangeV) -> TypeV {
    if k == 0 {
        TypeV::StdLogicVector(r)
    } else if k == 1 {
        TypeV::BitVector(r)
    } else if k == 2 {
        TypeV::Signed(r)
    } else {
        TypeV::Unsigned(r)
    }
}

/// What a type text denotes: the trimmed, lowered text is matched against the
/// known scalar names, then against the vector form; anything else is a custom
/// type carrying the lowered text. The error case is a vector bound too large
/// for the range model.
pub open spec fn spec_parse_type(raw: Seq<char>) -> Result<TypeV, ()> {
    let tl = lower_seq(trim_spec(raw));
    if tl == "std_logic"@ || tl == "std_ulogic"@ {
        Ok(TypeV::StdLogic)
    } else if tl == "bit"@ {
        Ok(TypeV::Bit)
    } else if tl == "integer"@ {
        Ok(TypeV::Integer)
    } else if tl == "natural"@ {
        Ok(TypeV::Natural)
    } else if tl == "positive"@ {
        Ok(TypeV::Positive)
    } else if tl == "boolean"@ {
        Ok(TypeV::Boolean)
    } else {
        match vector_form(tl) {
            Some(f) => {
                if digits_val(f.left) <= 0x7fff_ffff && digits_val(f.right) <= 0x7fff_ffff {
                    Ok(vec_variant(f.kind, RangeV {
                        left: digits_val(f.left),
                        right: digits_val(f.right),
                        downto: f.downto,
                    }))
                } else {
                    Err(())
                }
            }
            None => Ok(TypeV::Custom(tl)),
        }
    }
}

/// Parses digits already known to be a plain digit run that fits `i32`.
fn parse_digit_run(tl: &Vec<char>, a: usize, b: usize) -> (r: Option<i32>)
    requires
        a < b <= tl@.len(),
        forall|k: int| a <= k < b ==> is_digit_char(tl@[k]),
    ensures
        match r {
            Some(v) => v as int == digits_val(tl@.subrange(a as int, b as int)) && v >= 0,
            None => digits_val(tl@.subrange(a as int, b as int)) > 0x7fff_ffff,
        },
{
    let d = sub_vec(tl, a, b);
    let ghost dv = tl@.subrange(a as int, b as int);
    proof {
        assert(all_digits(dv));
        assert(dv[0] != '+' && dv[0] != '-');
        assert(crate::text::int_literal_val(dv) == Some(digits_val(dv)));
        crate::text::lemma_digits_val_nonneg(dv);
    }
    crate::text::parse_i32(&d)
}

fn vector_form_x(tl: &Vec<char>) -> (r: Option<(usize, bool, usize, usize, usize, usize)>)
    ensures
        match r {
            Some((k, downto, d1s, d1e, d2s, d2e)) => vector_form(tl@) == Some(VecForm {
                kind: k as int,
                left: tl@.subrange(d1s as int, d1e as int),
                downto,
                right: tl@.subrange(d2s as int, d2e as int),
            }) && d1s < d1e <= tl@.len() && d2s < d2e <= tl@.len() && k <= 3
                && (forall|m: int| d1s <= m < d1e ==> is_digit_char(tl@[m]))
                && (forall|m: int| d2s <= m < d2e ==> is_digit_char(tl@[m])),
            None => vector_form(tl@) is None,
        },
{
    let n: usize = tl.len();
    let (k, kl): (usize, usize) = {
        if crate::text::match_here(tl, &str_chars("std_logic_vector"), 0) {
            proof {
                reveal_strlit("std_logic_vector");
            }
            (0, 16)
        } else if crate::text::match_here(tl, &str_chars("bit_vector"), 0) {
            proof {
                reveal_strlit("bit_vector");
            }
            (1, 10)
        } else if crate::text::match_here(tl, &str_chars("signed"), 0) {
            proof {
                reveal_strlit("signed");
            }
            (2, 6)
        } else if crate::text::match_here(tl, &str_chars("unsigned"), 0) {
            proof {
                reveal_strlit("unsigned");
            }
            (3, 8)
        } else {
            assert(vector_form(tl@) is None);
            return None;
        }
    };
    assert(kl <= n);
    let w1 = ws_end_x(tl, kl);
    if !(w1 < n && tl[w1] == '(') {
        return None;
    }
    let w2 = ws_end_x(tl, w1 + 1);
    let d1e = digit_end_x(tl, w2);
    if !(d1e > w2) {
        return None;
    }
    let w3 = ws_end_x(tl, d1e);
    if !(w3 > d1e) {
        return None;
    }
    let (downto, q): (bool, usize) = if crate::text::match_here(tl, &str_chars("downto"), w3) {
        proof {
            reveal_strlit("downto");
        }
        (true, w3 + 6)
    } else if crate::text::match_here(tl, &str_chars("to"), w3) {
        proof {
            reveal_strlit("to");
        }
        (false, w3 + 2)
    } else {
        return None;
    };
    assert(q <= n);
    let w4 = ws_end_x(tl, q);
    if !(w4 > q) {
        return None;
    }
    let d2e = digit_end_x(tl, w4);
    if !(d2e > w4) {
        return None;
    }
    let w5 = ws_end_x(tl, d2e);
    if !(w5 < n && tl[w5] == ')' && w5 + 1 == n) {
        return None;
    }
    proof {
        lemma_digit_run(tl@, w2 as int, d1e as int);
        lemma_digit_run(tl@, w4 as int, d2e as int);
    }
    Some((k, downto, w2, d1e, w4, d2e))
}

/// Between an index and the end of its digit run, every character is a digit.
proof fn lemma_digit_run(s: Seq<char>, i: int, e: int)
    requires
        0 <= i <= s.len(),
        e == digit_end(s, i),
    ensures
        forall|m: int| i <= m < e ==> is_digit_char(s[m]),
    decreases s.len() - i,
{
    lemma_digit_end_bounds(s, i);
    if i < s.len() && is_digit_char(s[i]) {
        lemma_digit_run(s, i + 1, e);
    }
}

// ---------------------------------------------------------------------------
// Ports of one entity declaration
// ---------------------------------------------------------------------------

/// One port per identifier in the name list, in list order, all sharing the
/// declaration's direction and type.
pub open spec fn names_ports(names: Seq<Seq<char>>, i: int, dir: PortDirection, ty: TypeV)
    -> Seq<PortV>
    decreases names.len() - i,
{
    if 0 <= i < names.len() {
        let nm = trim_spec(names[i]);
        if nm.len() > 0 {
            seq![PortV { name: nm, direction: dir, typ: ty }] + names_ports(names, i + 1, dir, ty)
        } else {
            names_ports(names, i + 1, dir, ty)
        }
    } else {
        Seq::empty()
    }
}

/// The ports of the semicolon-separated declarations, in declaration order.
/// A declaration that does not parse is skipped; a bad direction keyword or an
/// unresolvable range bound is an error.
pub open spec fn spec_ports_fold(pieces: Seq<Seq<char>>, i: int, acc: Seq<PortV>) -> Result<Seq<
    PortV>, ParseErrorV>
    decreases pieces.len() - i,
{
    if 0 <= i < pieces.len() {
        let t = trim_spec(pieces[i]);
        if t.len() == 0 {
            spec_ports_fold(pieces, i + 1, acc)
        } else {
            match decl_shape(t) {
                None => spec_ports_fold(pieces, i + 1, acc),
                Some(sh) => {
                    let dirw = t.subrange(sh.dir_start, sh.dir_end);
                    match spec_dir_from(dirw) {
                        None => Err(ParseErrorV::InvalidPortDirection(dirw)),
                        Some(dir) => {
                            match spec_parse_type(t.skip(sh.type_start)) {
                                Err(_) => Err(ParseErrorV::UnresolvableRange),
                                Ok(ty) => spec_ports_fold(
                                    pieces,
                                    i + 1,
                                    acc + names_ports(split_spec(t.take(sh.colon), ','), 0, dir,
                                        ty),
                                ),
                            }
                        }
                    }
                }
            }
        }
    } else {
        Ok(acc)
    }
}

/// The ports of one entity declaration's text: empty when it has no port
/// clause — that is not an error.
pub open spec fn spec_entity_ports(t: Seq<char>) -> Result<Seq<PortV>, ParseErrorV> {
    match find_port_clause(t, 0) {
        Some((a, b)) => spec_ports_fold(split_spec(t.subrange(a, b), ';'), 0, Seq::empty()),
        None => Ok(Seq::empty()),
    }
}

// ---------------------------------------------------------------------------
// Architectures
// ---------------------------------------------------------------------------

/// One architecture body bound to an entity: its name, its declarative part
/// (before `begin`), and its statement part.
pub struct ArchHit {
    pub name_start: int,
    pub name_end: int,
    pub decls_start: int,
    pub decls_end: int,
    pub body_start: int,
    pub body_end: int,
}

/// An architecture headed at `p` whose `of` clause names `ename` exactly: the
/// declarative part runs to the first `begin`, the statement part to the last
/// closing form in the text.
pub open spec fn arch_match_at(s: Seq<char>, p: int, ename: Seq<char>) -> Option<ArchHit> {
    if match_at_ci(s, "architecture"@, p) {
        let ns = ws_end(s, p + 12);
        if ns == p + 12 {
            None
        } else {
            let ne = word_end(s, ns);
            if ne == ns {
                None
            } else {
                let o = ws_end(s, ne);
                if o == ne {
                    None
                } else if match_at_ci(s, "of"@, o) {
                    let es = ws_end(s, o + 2);
                    if es == o + 2 {
                        None
                    } else if match_at_ci(s, ename, es) {
                        let ie = ws_end(s, es + ename.len());
                        if ie == es + ename.len() {
                            None
                        } else if match_at_ci(s, "is"@, ie) {
                            match crate::text::find_idx_ci(s, "begin"@, ie + 2) {
                                Some(g) => {
                                    match rfind_end_upto(s, "architecture"@, g + 5, s.len() - 1) {
                                        Some((q, _e)) => Some(ArchHit {
                                            name_start: ns,
                                            name_end: ne,
                                            decls_start: ie + 2,
                                            decls_end: g,
                                            body_start: g + 5,
                                            body_end: q,
                                        }),
                                        None => None,
                                    }
                                }
                                None => None,
                            }
                        } else {
                            None
                        }
                    } else {
                        None
                    }
                } else {
                    None
                }
            }
        }
    } else {
        None
    }
}

/// The first architecture for `ename`, scanning left to right; later ones for
/// the same entity are not considered.
pub open spec fn find_arch(s: Seq<char>, from: int, ename: Seq<char>) -> Option<ArchHit>
    decreases s.len() - from,
{
    if from < 0 || from >= s.len() {
        None
    } else {
        match arch_match_at(s, from, ename) {
            Some(h) => Some(h),
            None => find_arch(s, from + 1, ename),
        }
    }
}

// ---------------------------------------------------------------------------
// Signal declarations in the declarative part
// ---------------------------------------------------------------------------

pub struct SigHit {
    pub name_start: int,
    pub name_end: int,
    pub type_start: int,
    pub type_end: int,
    pub end: int,
}

/// `signal <name> : <type> ;` headed at `p`.
pub open spec fn signal_match_at(d: Seq<char>, p: int) -> Option<SigHit> {
    if match_at_ci(d, "signal"@, p) {
        let ns = ws_end(d, p + 6);
        if ns == p + 6 {
            None
        } else {
            let ne = word_end(d, ns);
            if ne == ns {
                None
            } else {
                let c = ws_end(d, ne);
                if c < d.len() && d[c] == ':' {
                    let ts = ws_end(d, c + 1);
                    match find_idx(d, seq![';'], ts) {
                        Some(semi) => {
                            if semi > ts {
                                Some(SigHit {
                                    name_start: ns,
                                    name_end: ne,
                                    type_start: ts,
                                    type_end: semi,
                                    end: semi + 1,
                                })
                            } else {
                                None
                            }
                        }
                        None => None,
                    }
                } else {
                    None
                }
            }
        }
    } else {
        None
    }
}

/// All signal declarations of the declarative part, in order; a type with an
/// unresolvable bound makes the whole part fail.
pub open spec fn scan_signals(d: Seq<char>, from: int, acc: Seq<SignalV>) -> Result<Seq<SignalV>,
    ()>
    decreases d.len() - from,
{
    if from < 0 || from >= d.len() {
        Ok(acc)
    } else {
        match signal_match_at(d, from) {
            Some(h) => {
                if from < h.end <= d.len() {
                    match spec_parse_type(d.subrange(h.type_start, h.type_end)) {
                        Ok(ty) => scan_signals(d, h.end, acc + seq![SignalV {
                            name: d.subrange(h.name_start, h.name_end),
                            typ: ty,
                        }]),
                        Err(_) => Err(()),
                    }
                } else {
                    scan_signals(d, from + 1, acc)
                }
            }
            None => scan_signals(d, from + 1, acc),
        }
    }
}

// ---------------------------------------------------------------------------
// Processes in the statement part
// ---------------------------------------------------------------------------

pub struct ProcHit {
    pub start: int,
    pub has_label: bool,
    pub label_start: int,
    pub label_end: int,
    pub sens_start: int,
    pub sens_end: int,
    pub body_start: int,
    pub body_end: int,
    pub end: int,
}

/// The terminator of a process body: whitespace, `end`, whitespace,
/// `process`, optional whitespace, a semicolon. Yields the index past it.
pub open spec fn proc_tail_at(b: Seq<char>, x: int) -> Option<int> {
    let t0 = ws_end(b, x);
    if t0 > x && match_at_ci(b, "end"@, t0) {
        let t1 = ws_end(b, t0 + 3);
        if t1 > t0 + 3 && match_at_ci(b, "process"@, t1) {
            let t2 = ws_end(b, t1 + 7);
            if t2 < b.len() && b[t2] == ';' {
                Some(t2 + 1)
            } else {
                None
            }
        } else {
            None
        }
    } else {
        None
    }
}

/// The earliest terminator at or after `x` (the body text is lazy).
pub open spec fn find_proc_tail(b: Seq<char>, x: int) -> Option<(int, int)>
    decreases b.len() - x,
{
    if x < 0 || x >= b.len() {
        None
    } else {
        match proc_tail_at(b, x) {
            Some(e) => Some((x, e)),
            None => find_proc_tail(b, x + 1),
        }
    }
}

/// After `begin` at `g`: at least one whitespace character, then the body up
/// to the earliest terminator. Yields body start, body end, match end.
pub open spec fn proc_after_begin(b: Seq<char>, g: int) -> Option<(int, int, int)> {
    if ws_end(b, g + 5) > g + 5 {
        let bs = g + 6;
        match find_proc_tail(b, bs) {
            Some((x, e)) => Some((bs, x, e)),
            None => None,
        }
    } else {
        None
    }
}

/// `begin` after optional whitespace at `a`.
pub open spec fn begin_from(b: Seq<char>, a: int) -> Option<(int, int, int)> {
    let g = ws_end(b, a);
    if g > a && match_at_ci(b, "begin"@, g) {
        proc_after_begin(b, g)
    } else {
        None
    }
}

/// `process ( <sensitivity> ) [is] begin <body> end process ;` headed at `q`.
pub open spec fn proc_core(b: Seq<char>, q: int) -> Option<(int, int, int, int, int)> {
    if match_at_ci(b, "process"@, q) {
        let w = ws_end(b, q + 7);
        if w < b.len() && b[w] == '(' {
            match find_idx(b, seq![')'], w + 1) {
                Some(cp) => {
                    let a0 = cp + 1;
                    let with_is = {
                        let i1 = ws_end(b, a0);
                        if i1 > a0 && match_at_ci(b, "is"@, i1) {
                            begin_from(b, i1 + 2)
                        } else {
                            None
                        }
                    };
                    let rest = match with_is {
                        Some(t) => Some(t),
                        None => begin_from(b, a0),
                    };
                    match rest {
                        Some((bs, be, e)) => Some((w + 1, cp, bs, be, e)),
                        None => None,
                    }
                }
                None => None,
            }
        } else {
            None
        }
    } else {
        None
    }
}

/// A process statement headed at `p`, with its optional label.
pub open spec fn process_match_at(b: Seq<char>, p: int) -> Option<ProcHit> {
    let labeled = {
        let lw = word_end(b, p);
        if lw > p {
            let lc = ws_end(b, lw);
            if lc < b.len() && b[lc] == ':' {
                let pp = ws_end(b, lc + 1);
                match proc_core(b, pp) {
                    Some((ss, se, bs, be, e)) => Some(ProcHit {
                        start: p,
                        has_label: true,
                        label_start: p,
                        label_end: lw,
                        sens_start: ss,
                        sens_end: se,
                        body_start: bs,
                        body_end: be,
                        end: e,
                    }),
                    None => None,
                }
            } else {
                None
            }
        } else {
            None
        }
    };
    match labeled {
        Some(h) => Some(h),
        None => match proc_core(b, p) {
            Some((ss, se, bs, be, e)) => Some(ProcHit {
                start: p,
                has_label: false,
                label_start: p,
                label_end: p,
                sens_start: ss,
                sens_end: se,
                body_start: bs,
                body_end: be,
                end: e,
            }),
            None => None,
        },
    }
}

/// All process statements, leftmost first; scanning resumes after each match.
pub open spec fn scan_processes(b: Seq<char>, from: int) -> Seq<ProcHit>
    decreases b.len() - from,
{
    if from < 0 || from >= b.len() {
        Seq::empty()
    } else {
        match process_match_at(b, from) {
            Some(h) => {
                if from < h.end <= b.len() {
                    seq![h] + scan_processes(b, h.end)
                } else {
                    scan_processes(b, from + 1)
                }
            }
            None => scan_processes(b, from + 1),
        }
    }
}

/// The statement part with every process statement deleted; what remains are
/// the concurrent statements.
pub open spec fn remove_procs_from(b: Seq<char>, from: int) -> Seq<char>
    decreases b.len() - from,
{
    if from < 0 || from >= b.len() {
        Seq::empty()
    } else {
        match process_match_at(b, from) {
            Some(h) => {
                if from < h.end <= b.len() {
                    remove_procs_from(b, h.end)
                } else {
                    seq![b[from]] + remove_procs_from(b, from + 1)
                }
            }
            None => seq![b[from]] + remove_procs_from(b, from + 1),
        }
    }
}

/// Sensitivity entries: comma-separated, trimmed, empties dropped.
pub open spec fn sens_fold(pieces: Seq<Seq<char>>, i: int) -> Seq<Seq<char>>
    decreases pieces.len() - i,
{
    if 0 <= i < pieces.len() {
        let t = trim_spec(pieces[i]);
        if t.len() > 0 {
            seq![t] + sens_fold(pieces, i + 1)
        } else {
            sens_fold(pieces, i + 1)
        }
    } else {
        Seq::empty()
    }
}

/// The view of one matched process.
pub open spec fn proc_view(b: Seq<char>, h: ProcHit) -> ProcessV {
    ProcessV {
        label: if h.has_label {
            Some(b.subrange(h.label_start, h.label_end))
        } else {
            None
        },
        sensitivity_list: sens_fold(split_spec(b.subrange(h.sens_start, h.sens_end), ','), 0),
        body: trim_spec(b.subrange(h.body_start, h.body_end)),
    }
}

pub open spec fn procs_views(b: Seq<char>, hits: Seq<ProcHit>, i: int) -> Seq<ProcessV>
    decreases hits.len() - i,
{
    if 0 <= i < hits.len() {
        seq![proc_view(b, hits[i])] + procs_views(b, hits, i + 1)
    } else {
        Seq::empty()
    }
}

/// Concurrent statements: the statement part without processes, split on
/// semicolons, trimmed, with empties and comment-led pieces dropped.
pub open spec fn concurrents_fold(pieces: Seq<Seq<char>>, i: int) -> Seq<Seq<char>>
    decreases pieces.len() - i,
{
    if 0 <= i < pieces.len() {
        let t = trim_spec(pieces[i]);
        if t.len() > 0 && !match_at(t, "--"@, 0) {
            seq![t] + concurrents_fold(pieces, i + 1)
        } else {
            concurrents_fold(pieces, i + 1)
        }
    } else {
        Seq::empty()
    }
}

/// The architecture bound to `ename`, as the lifter reports it to a caller:
/// not found and unresolvable signal types are distinct errors.
pub open spec fn spec_arch_result(s: Seq<char>, ename: Seq<char>) -> Result<ArchV, ParseErrorV> {
    match find_arch(s, 0, ename) {
        Some(h) => {
            let decls = s.subrange(h.decls_start, h.decls_end);
            let body = s.subrange(h.body_start, h.body_end);
            match scan_signals(decls, 0, Seq::empty()) {
                Ok(sigs) => Ok(ArchV {
                    name: s.subrange(h.name_start, h.name_end),
                    signals: sigs,
                    processes: procs_views(body, scan_processes(body, 0), 0),
                    concurrent_statements: concurrents_fold(
                        split_spec(remove_procs_from(body, 0), ';'),
                        0,
                    ),
                }),
                Err(_) => Err(ParseErrorV::UnresolvableRange),
            }
        }
        None => Err(ParseErrorV::NoArchitecture),
    }
}

/// Within a whole parse, any architecture failure only leaves the entity
/// without an architecture.
pub open spec fn spec_arch_of(s: Seq<char>, ename: Seq<char>) -> Option<ArchV> {
    match spec_arch_result(s, ename) {
        Ok(a) => Some(a),
        Err(_) => None,
    }
}

/// All entities of a source unit, in declaration order, with the first
/// structural error among them. A structural error (a bad mode keyword, an
/// unresolvable bound) is fatal to its own entity only: that entity is
/// dropped and the fold goes on. Everything about architectures degrades to
/// an entity without one.
pub open spec fn entities_fold(s: Seq<char>, hits: Seq<EntityHit>, i: int, acc: Seq<EntityV>,
    err: Option<ParseErrorV>) -> (Seq<EntityV>, Option<ParseErrorV>)
    decreases hits.len() - i,
{
    if 0 <= i < hits.len() {
        let h = hits[i];
        let name = s.subrange(h.name_start, h.name_end);
        match spec_entity_ports(s.subrange(h.start, h.end)) {
            Err(e) => entities_fold(s, hits, i + 1, acc, if err is Some {
                err
            } else {
                Some(e)
            }),
            Ok(ports) => entities_fold(s, hits, i + 1, acc + seq![EntityV {
                name,
                ports,
                generics: Seq::empty(),
                architecture: spec_arch_of(s, name),
            }], err),
        }
    } else {
        (acc, err)
    }
}

/// The unit's entities: the ones that lift. The first structural error is
/// surfaced only when it left nothing to return.
pub open spec fn spec_parse_entities(s: Seq<char>) -> Result<Seq<EntityV>, ParseErrorV> {
    let folded = entities_fold(s, scan_entity_hits(s, 0), 0, Seq::empty(), None);
    if folded.0.len() == 0 && folded.1 is Some {
        Err(folded.1->Some_0)
    } else {
        Ok(folded.0)
    }
}

// ---------------------------------------------------------------------------
// Executable lifter
// ---------------------------------------------------------------------------

/// A fresh value of the same type.
pub fn dup_type_pub(t: &VHDLType) -> (r: VHDLType)
    ensures
        r@ == t@,
{
    match t {
        VHDLType::StdLogic => VHDLType::StdLogic,
        VHDLType::StdLogicVector(r0) => VHDLType::StdLogicVector(*r0),
        VHDLType::Integer => VHDLType::Integer,
        VHDLType::Natural => VHDLType::Natural,
        VHDLType::Positive => VHDLType::Positive,
        VHDLType::Boolean => VHDLType::Boolean,
        VHDLType::Bit => VHDLType::Bit,
        VHDLType::BitVector(r0) => VHDLType::BitVector(*r0),
        VHDLType::Signed(r0) => VHDLType::Signed(*r0),
        VHDLType::Unsigned(r0) => VHDLType::Unsigned(*r0),
        VHDLType::Custom(s) => VHDLType::Custom(s.clone()),
    }
}

fn parse_type_chars(raw: &Vec<char>) -> (r: Result<VHDLType, ParseError>)
    ensures
        match r {
            Ok(t) => spec_parse_type(raw@) == Ok::<TypeV, ()>(t@),
            Err(e) => spec_parse_type(raw@) is Err && e@ is UnresolvableRange,
        },
{
    let tl = to_lower(&trim(raw));
    if seq_eq(&tl, &str_chars("std_logic")) || seq_eq(&tl, &str_chars("std_ulogic")) {
        return Ok(VHDLType::StdLogic);
    }
    if seq_eq(&tl, &str_chars("bit")) {
        return Ok(VHDLType::Bit);
    }
    if seq_eq(&tl, &str_chars("integer")) {
        return Ok(VHDLType::Integer);
    }
    if seq_eq(&tl, &str_chars("natural")) {
        return Ok(VHDLType::Natural);
    }
    if seq_eq(&tl, &str_chars("positive")) {
        return Ok(VHDLType::Positive);
    }
    if seq_eq(&tl, &str_chars("boolean")) {
        return Ok(VHDLType::Boolean);
    }
    match vector_form_x(&tl) {
        Some((k, downto, d1s, d1e, d2s, d2e)) => {
            let left = match parse_digit_run(&tl, d1s, d1e) {
                Some(v) => v,
                None => {
                    return Err(ParseError::UnresolvableRange);
                }
            };
            let right = match parse_digit_run(&tl, d2s, d2e) {
                Some(v) => v,
                None => {
                    return Err(ParseError::UnresolvableRange);
                }
            };
            let range = VectorRange { left, right, downto };
            let t = if k == 0 {
                VHDLType::StdLogicVector(range)
            } else if k == 1 {
                VHDLType::BitVector(range)
            } else if k == 2 {
                VHDLType::Signed(range)
            } else {
                VHDLType::Unsigned(range)
            };
            Ok(t)
        }
        None => Ok(VHDLType::Custom(chars_to_string(&tl))),
    }
}

/// One port per identifier of one declaration's name list.
fn ports_of_decl(t: &Vec<char>, colon: usize, dir: PortDirection, ty: &VHDLType) -> (r: Vec<Port>)
    requires
        colon <= t@.len(),
    ensures
        r@.map_values(|p: Port| p@) == names_ports(split_spec(t@.take(colon as int), ','), 0, dir,
            ty@),
{
    let head = sub_vec(t, 0, colon);
    proof {
        assert(t@.subrange(0, colon as int) =~= t@.take(colon as int));
    }
    let names = split(&head, ',');
    let ghost nv = names@.map_values(|l: Vec<char>| l@);
    let n: usize = names.len();
    let mut out: Vec<Port> = Vec::new();
    let mut i: usize = 0;
    proof {
        assert(out@.map_values(|p: Port| p@) + names_ports(nv, 0, dir, ty@) =~= names_ports(nv, 0,
            dir, ty@));
    }
    while i < n
        invariant
            n == nv.len(),
            nv == names@.map_values(|l: Vec<char>| l@),
            i <= n,
            names_ports(nv, 0, dir, ty@) == out@.map_values(|p: Port| p@) + names_ports(nv,
                i as int, dir, ty@),
        decreases n - i,
    {
        let ghost pre = out@.map_values(|p: Port| p@);
        proof {
            assert(names@.map_values(|l: Vec<char>| l@)[i as int] == names@[i as int]@);
        }
        let nm = trim(&names[i]);
        if nm.len() > 0 {
            let port = Port { name: chars_to_string(&nm), direction: dir, port_type: dup_type_pub(ty) };
            out.push(port);
            proof {
                assert(out@.map_values(|p: Port| p@) =~= pre + seq![PortV {
                    name: nm@,
                    direction: dir,
                    typ: ty@,
                }]);
            }
        }
        i = i + 1;
    }
    out
}

/// The ports of one port clause's text.
fn parse_ports_clause(clause: &Vec<char>) -> (r: Result<Vec<Port>, ParseError>)
    ensures
        match r {
            Ok(ps) => spec_ports_fold(split_spec(clause@, ';'), 0, Seq::empty()) == Ok::<Seq<
                PortV>, ParseErrorV>(ps@.map_values(|p: Port| p@)),
            Err(e) => spec_ports_fold(split_spec(clause@, ';'), 0, Seq::empty())
                == Err::<Seq<PortV>, ParseErrorV>(e@),
        },
{
    let pieces = split(clause, ';');
    let ghost pv = pieces@.map_values(|l: Vec<char>| l@);
    let n: usize = pieces.len();
    let mut out: Vec<Port> = Vec::new();
    let mut i: usize = 0;
    proof {
        assert(out@.map_values(|p: Port| p@) =~= Seq::<PortV>::empty());
    }
    while i < n
        invariant
            n == pv.len(),
            pv == pieces@.map_values(|l: Vec<char>| l@),
            pv == split_spec(clause@, ';'),
            i <= n,
            spec_ports_fold(pv, 0, Seq::empty()) == spec_ports_fold(pv, i as int,
                out@.map_values(|p: Port| p@)),
        decreases n - i,
    {
        let ghost acc = out@.map_values(|p: Port| p@);
        proof {
            assert(pieces@.map_values(|l: Vec<char>| l@)[i as int] == pieces@[i as int]@);
        }
        let t = trim(&pieces[i]);
        if t.len() > 0 {
            match decl_shape_x(&t) {
                Some((ce, d0, de, ts)) => {
                    let dirw = sub_vec(&t, d0, de);
                    let dirs = chars_to_string(&dirw);
                    match PortDirection::from_vhdl(dirs.as_str()) {
                        Some(dir) => {
                            let tail = sub_vec(&t, ts, t.len());
                            proof {
                                assert(t@.subrange(ts as int, t@.len() as int) =~= t@.skip(
                                    ts as int));
                            }
                            match parse_type_chars(&tail) {
                                Ok(ty) => {
                                    let mut ports = ports_of_decl(&t, ce, dir, &ty);
                                    let ghost newps = ports@.map_values(|p: Port| p@);
                                    let mut k: usize = 0;
                                    let pn: usize = ports.len();
                                    while k < pn
                                        invariant
                                            pn == ports@.len(),
                                            k <= pn,
                                            out@.map_values(|p: Port| p@) == acc
                                                + ports@.map_values(|p: Port| p@).take(k as int),
                                            newps == ports@.map_values(|p: Port| p@),
                                        decreases pn - k,
                                    {
                                        let ghost cur = out@.map_values(|p: Port| p@);
                                        let p = dup_port(&ports[k]);
                                        out.push(p);
                                        proof {
                                            assert(ports@.map_values(|q: Port| q@)[k as int]
                                                == ports@[k as int]@);
                                            assert(out@.map_values(|q: Port| q@) =~= cur + seq![
                                                ports@[k as int]@]);
                                            assert(cur + seq![ports@[k as int]@] =~= acc
                                                + ports@.map_values(|q: Port| q@).take(
                                                k + 1 as int));
                                        }
                                        k = k + 1;
                                    }
                                    proof {
                                        assert(newps.take(pn as int) =~= newps);
                                        assert(out@.map_values(|p: Port| p@) =~= acc + newps);
                                    }
                                }
                                Err(e) => {
                                    proof {
                                        assert(e@ == ParseErrorV::UnresolvableRange);
                                        assert(spec_ports_fold(pv, i as int, acc)
                                            == Err::<Seq<PortV>, ParseErrorV>(e@));
                                    }
                                    return Err(e);
                                }
                            }
                        }
                        None => {
                            proof {
                                assert(dirs@ == t@.subrange(d0 as int, de as int));
                                assert(spec_ports_fold(pv, i as int, acc) == Err::<Seq<PortV>,
                                    ParseErrorV>(ParseErrorV::InvalidPortDirection(dirs@)));
                            }
                            return Err(ParseError::InvalidPortDirection(dirs));
                        }
                    }
                }
                None => {}
            }
        }
        i = i + 1;
    }
    proof {
        assert(spec_ports_fold(pv, n as int, out@.map_values(|p: Port| p@)) == Ok::<Seq<PortV>,
            ParseErrorV>(out@.map_values(|p: Port| p@)));
    }
    Ok(out)
}

fn dup_port(p: &Port) -> (r: Port)
    ensures
        r@ == p@,
{
    Port { name: p.name.clone(), direction: p.direction, port_type: dup_type_pub(&p.port_type) }
}

fn arch_match_at_x(s: &Vec<char>, p: usize, ename: &Vec<char>) -> (r: Option<(usize, usize,
    usize, usize, usize, usize)>)
    requires
        p <= s@.len(),
    ensures
        match r {
            Some((ns, ne, ds, de, bs, be)) => arch_match_at(s@, p as int, ename@)
                == Some(ArchHit {
                name_start: ns as int,
                name_end: ne as int,
                decls_start: ds as int,
                decls_end: de as int,
                body_start: bs as int,
                body_end: be as int,
            }) && ns <= ne <= s@.len() && ds <= de <= s@.len() && bs <= be <= s@.len(),
            None => arch_match_at(s@, p as int, ename@) is None,
        },
{
    let n: usize = s.len();
    if !match_kw(s, "architecture", p) {
        return None;
    }
    proof {
        reveal_strlit("architecture");
        assert(p + 12 <= n);
    }
    let ns = ws_end_x(s, p + 12);
    if ns == p + 12 {
        return None;
    }
    let ne = word_end_x(s, ns);
    if ne == ns {
        return None;
    }
    let o = ws_end_x(s, ne);
    if o == ne {
        return None;
    }
    if !match_kw(s, "of", o) {
        return None;
    }
    proof {
        reveal_strlit("of");
        assert(o + 2 <= n);
    }
    let es = ws_end_x(s, o + 2);
    if es == o + 2 {
        return None;
    }
    if !crate::text::match_here_ci(s, ename, es) {
        return None;
    }
    let elen: usize = ename.len();
    assert(es + elen <= n);
    let ie = ws_end_x(s, es + elen);
    if ie == es + elen {
        return None;
    }
    if !match_kw(s, "is", ie) {
        return None;
    }
    proof {
        reveal_strlit("is");
        assert(ie + 2 <= n);
    }
    match crate::text::find_ci(s, &str_chars("begin"), ie + 2) {
        Some(g) => {
            proof {
                crate::text::lemma_find_idx_ci_some(s@, "begin"@, ie + 2);
                reveal_strlit("begin");
                assert(g + 5 <= n);
            }
            if n == 0 {
                return None;
            }
            match rfind_end_x(s, "architecture", g + 5, n - 1) {
                Some((q, _e)) => Some((ns, ne, ie + 2, g, g + 5, q)),
                None => None,
            }
        }
        None => None,
    }
}

/// The first architecture bound to `ename`, with its regions.
fn find_arch_x(s: &Vec<char>, ename: &Vec<char>) -> (r: Option<(usize, usize, usize, usize,
    usize, usize)>)
    ensures
        match r {
            Some((ns, ne, ds, de, bs, be)) => find_arch(s@, 0, ename@) == Some(ArchHit {
                name_start: ns as int,
                name_end: ne as int,
                decls_start: ds as int,
                decls_end: de as int,
                body_start: bs as int,
                body_end: be as int,
            }) && ns <= ne <= s@.len() && ds <= de <= s@.len() && bs <= be <= s@.len(),
            None => find_arch(s@, 0, ename@) is None,
        },
{
    let n: usize = s.len();
    let mut p: usize = 0;
    while p < n
        invariant
            n == s@.len(),
            p <= n,
            find_arch(s@, 0, ename@) == find_arch(s@, p as int, ename@),
        decreases n - p,
    {
        match arch_match_at_x(s, p, ename) {
            Some(h) => {
                return Some(h);
            }
            None => {}
        }
        p = p + 1;
    }
    None
}

fn signal_match_at_x(d: &Vec<char>, p: usize) -> (r: Option<(usize, usize, usize, usize, usize)>)
    requires
        p <= d@.len(),
    ensures
        match r {
            Some((ns, ne, ts, te, e)) => signal_match_at(d@, p as int) == Some(SigHit {
                name_start: ns as int,
                name_end: ne as int,
                type_start: ts as int,
                type_end: te as int,
                end: e as int,
            }) && ns <= ne <= d@.len() && ts <= te <= d@.len() && p < e <= d@.len(),
            None => signal_match_at(d@, p as int) is None,
        },
{
    let n: usize = d.len();
    if !match_kw(d, "signal", p) {
        return None;
    }
    proof {
        reveal_strlit("signal");
        assert(p + 6 <= n);
    }
    let ns = ws_end_x(d, p + 6);
    if ns == p + 6 {
        return None;
    }
    let ne = word_end_x(d, ns);
    if ne == ns {
        return None;
    }
    let c = ws_end_x(d, ne);
    if !(c < n && d[c] == ':') {
        return None;
    }
    let ts = ws_end_x(d, c + 1);
    let semis: Vec<char> = vec![';'];
    proof {
        assert(semis@ =~= seq![';']);
    }
    match find(d, &semis, ts) {
        Some(semi) => {
            proof {
                lemma_find_idx_some(d@, semis@, ts as int);
            }
            if semi > ts {
                Some((ns, ne, ts, semi, semi + 1))
            } else {
                None
            }
        }
        None => None,
    }
}

/// All signals of the declarative part, or the first unresolvable type.
fn scan_signals_x(d: &Vec<char>) -> (r: Result<Vec<Signal>, ParseError>)
    ensures
        match r {
            Ok(ss) => scan_signals(d@, 0, Seq::empty()) == Ok::<Seq<SignalV>, ()>(
                ss@.map_values(|x: Signal| x@)),
            Err(e) => scan_signals(d@, 0, Seq::empty()) is Err && e@ is UnresolvableRange,
        },
{
    let n: usize = d.len();
    let mut out: Vec<Signal> = Vec::new();
    let mut i: usize = 0;
    proof {
        assert(out@.map_values(|x: Signal| x@) =~= Seq::<SignalV>::empty());
    }
    while i < n
        invariant
            n == d@.len(),
            i <= n,
            scan_signals(d@, 0, Seq::empty()) == scan_signals(d@, i as int, out@.map_values(
                |x: Signal| x@)),
        decreases n - i,
    {
        let ghost acc = out@.map_values(|x: Signal| x@);
        match signal_match_at_x(d, i) {
            Some((ns, ne, ts, te, e)) => {
                let ty_text = sub_vec(d, ts, te);
                match parse_type_chars(&ty_text) {
                    Ok(ty) => {
                        let name = chars_to_string(&sub_vec(d, ns, ne));
                        let sig = Signal { name, signal_type: ty };
                        out.push(sig);
                        proof {
                            assert(out@.map_values(|x: Signal| x@) =~= acc + seq![SignalV {
                                name: d@.subrange(ns as int, ne as int),
                                typ: spec_parse_type(d@.subrange(ts as int, te as int))->Ok_0,
                            }]);
                        }
                        i = e;
                    }
                    Err(e2) => {
                        return Err(e2);
                    }
                }
            }
            None => {
                i = i + 1;
            }
        }
    }
    Ok(out)
}

fn proc_tail_at_x(b: &Vec<char>, x: usize) -> (r: Option<usize>)
    requires
        x <= b@.len(),
    ensures
        match r {
            Some(e) => proc_tail_at(b@, x as int) == Some(e as int) && x < e <= b@.len(),
            None => proc_tail_at(b@, x as int) is None,
        },
{
    let n: usize = b.len();
    let t0 = ws_end_x(b, x);
    if !(t0 > x && match_kw(b, "end", t0)) {
        return None;
    }
    proof {
        reveal_strlit("end");
        assert(t0 + 3 <= n);
    }
    let t1 = ws_end_x(b, t0 + 3);
    if !(t1 > t0 + 3 && match_kw(b, "process", t1)) {
        return None;
    }
    proof {
        reveal_strlit("process");
        assert(t1 + 7 <= n);
    }
    let t2 = ws_end_x(b, t1 + 7);
    if t2 < n && b[t2] == ';' {
        Some(t2 + 1)
    } else {
        None
    }
}

fn find_proc_tail_x(b: &Vec<char>, x: usize) -> (r: Option<(usize, usize)>)
    requires
        x <= b@.len(),
    ensures
        match r {
            Some((y, e)) => find_proc_tail(b@, x as int) == Some((y as int, e as int)) && x <= y
                < e <= b@.len(),
            None => find_proc_tail(b@, x as int) is None,
        },
{
    let n: usize = b.len();
    let mut i: usize = x;
    while i < n
        invariant
            n == b@.len(),
            x <= i <= n,
            find_proc_tail(b@, x as int) == find_proc_tail(b@, i as int),
        decreases n - i,
    {
        match proc_tail_at_x(b, i) {
            Some(e) => {
                return Some((i, e));
            }
            None => {}
        }
        i = i + 1;
    }
    None
}

fn begin_from_x(b: &Vec<char>, a: usize) -> (r: Option<(usize, usize, usize)>)
    requires
        a <= b@.len(),
    ensures
        match r {
            Some((bs, be, e)) => begin_from(b@, a as int) == Some((bs as int, be as int,
                e as int)) && bs <= be <= b@.len() && a < e <= b@.len(),
            None => begin_from(b@, a as int) is None,
        },
{
    let n: usize = b.len();
    let g = ws_end_x(b, a);
    if !(g > a && match_kw(b, "begin", g)) {
        return None;
    }
    proof {
        reveal_strlit("begin");
        assert(g + 5 <= n);
    }
    let w = ws_end_x(b, g + 5);
    if !(w > g + 5) {
        return None;
    }
    assert(g + 6 <= n);
    match find_proc_tail_x(b, g + 6) {
        Some((x, e)) => Some((g + 6, x, e)),
        None => None,
    }
}

fn proc_core_x(b: &Vec<char>, q: usize) -> (r: Option<(usize, usize, usize, usize, usize)>)
    requires
        q <= b@.len(),
    ensures
        match r {
            Some((ss, se, bs, be, e)) => proc_core(b@, q as int) == Some((ss as int, se as int,
                bs as int, be as int, e as int)) && ss <= se <= b@.len() && bs <= be <= b@.len()
                && q < e <= b@.len(),
            None => proc_core(b@, q as int) is None,
        },
{
    let n: usize = b.len();
    if !match_kw(b, "process", q) {
        return None;
    }
    proof {
        reveal_strlit("process");
        assert(q + 7 <= n);
    }
    let w = ws_end_x(b, q + 7);
    if !(w < n && b[w] == '(') {
        return None;
    }
    let closep: Vec<char> = vec![')'];
    proof {
        assert(closep@ =~= seq![')']);
    }
    match find(b, &closep, w + 1) {
        Some(cp) => {
            proof {
                lemma_find_idx_some(b@, closep@, w + 1);
            }
            let a0 = cp + 1;
            let i1 = ws_end_x(b, a0);
            let mut taken: Option<(usize, usize, usize)> = None;
            if i1 > a0 && match_kw(b, "is", i1) {
                proof {
                    reveal_strlit("is");
                    assert(i1 + 2 <= n);
                }
                taken = begin_from_x(b, i1 + 2);
            }
            let rest = match taken {
                Some(t) => Some(t),
                None => begin_from_x(b, a0),
            };
            match rest {
                Some((bs, be, e)) => Some((w + 1, cp, bs, be, e)),
                None => None,
            }
        }
        None => None,
    }
}

fn process_match_at_x(b: &Vec<char>, p: usize) -> (r: Option<(usize, bool, usize, usize, usize,
    usize, usize, usize, usize)>)
    requires
        p <= b@.len(),
    ensures
        match r {
            Some((st, hl, ls, le, ss, se, bs, be, e)) => process_match_at(b@, p as int)
                == Some(ProcHit {
                start: st as int,
                has_label: hl,
                label_start: ls as int,
                label_end: le as int,
                sens_start: ss as int,
                sens_end: se as int,
                body_start: bs as int,
                body_end: be as int,
                end: e as int,
            }) && st == p && ls <= le <= b@.len() && ss <= se <= b@.len() && bs <= be <= b@.len()
                && p < e <= b@.len(),
            None => process_match_at(b@, p as int) is None,
        },
{
    let n: usize = b.len();
    let lw = word_end_x(b, p);
    if lw > p {
        let lc = ws_end_x(b, lw);
        if lc < n && b[lc] == ':' {
            let pp = ws_end_x(b, lc + 1);
            match proc_core_x(b, pp) {
                Some((ss, se, bs, be, e)) => {
                    assert(p < e);
                    return Some((p, true, p, lw, ss, se, bs, be, e));
                }
                None => {}
            }
        }
    }
    match proc_core_x(b, p) {
        Some((ss, se, bs, be, e)) => Some((p, false, p, p, ss, se, bs, be, e)),
        None => None,
    }
}

/// The sensitivity entries of one list text, as owned strings.
fn sens_list_x(text: &Vec<char>) -> (r: Vec<String>)
    ensures
        r@.map_values(|x: String| x@) == sens_fold(split_spec(text@, ','), 0),
{
    let pieces = split(text, ',');
    let ghost pv = pieces@.map_values(|l: Vec<char>| l@);
    let n: usize = pieces.len();
    let mut out: Vec<String> = Vec::new();
    let mut i: usize = 0;
    proof {
        assert(out@.map_values(|x: String| x@) + sens_fold(pv, 0) =~= sens_fold(pv, 0));
    }
    while i < n
        invariant
            n == pv.len(),
            pv == pieces@.map_values(|l: Vec<char>| l@),
            i <= n,
            sens_fold(pv, 0) == out@.map_values(|x: String| x@) + sens_fold(pv, i as int),
        decreases n - i,
    {
        let ghost pre = out@.map_values(|x: String| x@);
        proof {
            assert(pieces@.map_values(|l: Vec<char>| l@)[i as int] == pieces@[i as int]@);
        }
        let t = trim(&pieces[i]);
        if t.len() > 0 {
            let piece = chars_to_string(&t);
            out.push(piece);
            proof {
                assert(out@.map_values(|x: String| x@) =~= pre + seq![t@]);
            }
        }
        i = i + 1;
    }
    proof {
        assert(sens_fold(pv, n as int) =~= Seq::<Seq<char>>::empty());
        assert(out@.map_values(|x: String| x@) + sens_fold(pv, n as int) =~= out@.map_values(
            |x: String| x@));
    }
    out
}

/// All process statements of the statement part.
fn parse_processes_x(b: &Vec<char>) -> (r: Vec<Process>)
    ensures
        r@.map_values(|x: Process| x@) == procs_views(b@, scan_processes(b@, 0), 0),
{
    let n: usize = b.len();
    let mut out: Vec<Process> = Vec::new();
    let mut i: usize = 0;
    let ghost hits = scan_processes(b@, 0);
    proof {
        assert(out@.map_values(|x: Process| x@) + procs_views(b@, scan_processes(b@, i as int), 0)
            =~= procs_views(b@, scan_processes(b@, i as int), 0));
    }
    while i < n
        invariant
            n == b@.len(),
            i <= n,
            procs_views(b@, scan_processes(b@, 0), 0) == out@.map_values(|x: Process| x@)
                + procs_views(b@, scan_processes(b@, i as int), 0),
        decreases n - i,
    {
        let ghost pre = out@.map_values(|x: Process| x@);
        match process_match_at_x(b, i) {
            Some((st, hl, ls, le, ss, se, bs, be, e)) => {
                let ghost h = process_match_at(b@, i as int)->Some_0;
                let label: Option<String> = if hl {
                    Some(chars_to_string(&sub_vec(b, ls, le)))
                } else {
                    None
                };
                let sens = sens_list_x(&sub_vec(b, ss, se));
                let body = chars_to_string(&trim(&sub_vec(b, bs, be)));
                let p = Process { label, sensitivity_list: sens, body };
                out.push(p);
                proof {
                    assert(scan_processes(b@, i as int) =~= seq![h] + scan_processes(b@,
                        e as int));
                    assert(procs_views(b@, seq![h] + scan_processes(b@, e as int), 0)
                        =~= seq![proc_view(b@, h)] + procs_views(b@, scan_processes(b@, e as int),
                        0)) by {
                        assert((seq![h] + scan_processes(b@, e as int))[0] == h);
                        assert((seq![h] + scan_processes(b@, e as int)).len() == 1
                            + scan_processes(b@, e as int).len());
                        lemma_procs_views_shift(b@, h, scan_processes(b@, e as int));
                    }
                    assert(out@.map_values(|x: Process| x@) =~= pre + seq![proc_view(b@, h)]);
                }
                i = e;
            }
            None => {
                i = i + 1;
            }
        }
    }
    proof {
        assert(scan_processes(b@, n as int) =~= Seq::<ProcHit>::empty());
        assert(procs_views(b@, scan_processes(b@, n as int), 0) =~= Seq::<ProcessV>::empty());
        assert(out@.map_values(|x: Process| x@) + Seq::<ProcessV>::empty() =~= out@.map_values(
            |x: Process| x@));
    }
    out
}

/// Views from an index are the views of the tail from zero.
proof fn lemma_procs_views_skip(b: Seq<char>, hits: Seq<ProcHit>, i: int)
    requires
        0 <= i <= hits.len(),
    ensures
        procs_views(b, hits, i) == procs_views(b, hits.skip(i), 0),
    decreases hits.len() - i,
{
    if i < hits.len() {
        lemma_procs_views_skip(b, hits, i + 1);
        lemma_procs_views_skip(b, hits.skip(i), 1);
        assert(hits.skip(i).skip(1) =~= hits.skip(i + 1));
        assert(hits.skip(i)[0] == hits[i]);
    } else {
        assert(hits.skip(i).len() == 0);
    }
}

/// Prepending one hit prepends one view.
proof fn lemma_procs_views_shift(b: Seq<char>, h: ProcHit, rest: Seq<ProcHit>)
    ensures
        procs_views(b, seq![h] + rest, 0) == seq![proc_view(b, h)] + procs_views(b, rest, 0),
{
    let whole = seq![h] + rest;
    assert(whole.len() == 1 + rest.len());
    assert(whole[0] == h);
    lemma_procs_views_skip(b, whole, 1);
    assert(whole.skip(1) =~= rest);
}

/// The statement part with process statements deleted.
fn remove_procs_x(b: &Vec<char>) -> (r: Vec<char>)
    ensures
        r@ == remove_procs_from(b@, 0),
{
    let n: usize = b.len();
    let mut out: Vec<char> = Vec::new();
    let mut i: usize = 0;
    proof {
        assert(out@ + remove_procs_from(b@, 0) =~= remove_procs_from(b@, 0));
    }
    while i < n
        invariant
            n == b@.len(),
            i <= n,
            remove_procs_from(b@, 0) == out@ + remove_procs_from(b@, i as int),
        decreases n - i,
    {
        match process_match_at_x(b, i) {
            Some((_st, _hl, _ls, _le, _ss, _se, _bs, _be, e)) => {
                i = e;
            }
            None => {
                let ghost pre = out@;
                out.push(b[i]);
                proof {
                    assert(out@ =~= pre + seq![b@[i as int]]);
                }
                i = i + 1;
            }
        }
    }
    proof {
        assert(remove_procs_from(b@, n as int) =~= Seq::<char>::empty());
        assert(out@ + remove_procs_from(b@, n as int) =~= out@);
    }
    out
}

/// The concurrent statements of the statement part.
fn parse_concurrents_x(b: &Vec<char>) -> (r: Vec<String>)
    ensures
        r@.map_values(|x: String| x@) == concurrents_fold(split_spec(remove_procs_from(b@, 0),
            ';'), 0),
{
    let cleaned = remove_procs_x(b);
    let pieces = split(&cleaned, ';');
    let ghost pv = pieces@.map_values(|l: Vec<char>| l@);
    let n: usize = pieces.len();
    let mut out: Vec<String> = Vec::new();
    let mut i: usize = 0;
    proof {
        assert(out@.map_values(|x: String| x@) + concurrents_fold(pv, 0) =~= concurrents_fold(pv,
            0));
    }
    while i < n
        invariant
            n == pv.len(),
            pv == pieces@.map_values(|l: Vec<char>| l@),
            pv == split_spec(remove_procs_from(b@, 0), ';'),
            i <= n,
            concurrents_fold(pv, 0) == out@.map_values(|x: String| x@) + concurrents_fold(pv,
                i as int),
        decreases n - i,
    {
        let ghost pre = out@.map_values(|x: String| x@);
        proof {
            assert(pieces@.map_values(|l: Vec<char>| l@)[i as int] == pieces@[i as int]@);
        }
        let t = trim(&pieces[i]);
        if t.len() > 0 && !crate::ir::gen::starts_with_str(&t, "--") {
            let piece = chars_to_string(&t);
            out.push(piece);
            proof {
                assert(out@.map_values(|x: String| x@) =~= pre + seq![t@]);
            }
        }
        i = i + 1;
    }
    proof {
        assert(concurrents_fold(pv, n as int) =~= Seq::<Seq<char>>::empty());
        assert(out@.map_values(|x: String| x@) + concurrents_fold(pv, n as int)
            =~= out@.map_values(|x: String| x@));
    }
    out
}

/// The first architecture bound to `ename`, fully lifted.
fn arch_result_x(s: &Vec<char>, ename: &Vec<char>) -> (r: Result<Architecture, ParseError>)
    ensures
        match r {
            Ok(a) => spec_arch_result(s@, ename@) == Ok::<ArchV, ParseErrorV>(a@),
            Err(e) => spec_arch_result(s@, ename@) == Err::<ArchV, ParseErrorV>(e@),
        },
{
    match find_arch_x(s, ename) {
        Some((ns, ne, ds, de, bs, be)) => {
            let decls = sub_vec(s, ds, de);
            let body = sub_vec(s, bs, be);
            match scan_signals_x(&decls) {
                Ok(signals) => {
                    let processes = parse_processes_x(&body);
                    let concurrent_statements = parse_concurrents_x(&body);
                    let name = chars_to_string(&sub_vec(s, ns, ne));
                    let a = Architecture { name, signals, processes, concurrent_statements };
                    proof {
                        assert(a@ == spec_arch_result(s@, ename@)->Ok_0);
                    }
                    Ok(a)
                }
                Err(_) => Err(ParseError::UnresolvableRange),
            }
        }
        None => Err(ParseError::NoArchitecture),
    }
}

/// All entity declarations of the unit, as scan positions.
fn scan_entities_x(s: &Vec<char>) -> (r: Vec<(usize, usize, usize, usize)>)
    ensures
        r@.map_values(|h: (usize, usize, usize, usize)| EntityHit {
            start: h.0 as int,
            name_start: h.1 as int,
            name_end: h.2 as int,
            end: h.3 as int,
        }) == scan_entity_hits(s@, 0),
        forall|k: int| 0 <= k < r@.len() ==> (#[trigger] r@[k]).0 <= r@[k].1 <= r@[k].2 <= s@.len()
            && r@[k].0 < r@[k].3 <= s@.len(),
{
    let ghost f = |h: (usize, usize, usize, usize)| EntityHit {
        start: h.0 as int,
        name_start: h.1 as int,
        name_end: h.2 as int,
        end: h.3 as int,
    };
    let n: usize = s.len();
    let mut out: Vec<(usize, usize, usize, usize)> = Vec::new();
    let mut i: usize = 0;
    proof {
        assert(out@.map_values(f) + scan_entity_hits(s@, 0) =~= scan_entity_hits(s@, 0));
    }
    while i < n
        invariant
            n == s@.len(),
            i <= n,
            scan_entity_hits(s@, 0) == out@.map_values(f) + scan_entity_hits(s@, i as int),
            f == (|h: (usize, usize, usize, usize)| EntityHit {
                start: h.0 as int,
                name_start: h.1 as int,
                name_end: h.2 as int,
                end: h.3 as int,
            }),
            forall|k: int| 0 <= k < out@.len() ==> (#[trigger] out@[k]).0 <= out@[k].1
                <= out@[k].2 <= s@.len() && out@[k].0 < out@[k].3 <= s@.len(),
        decreases n - i,
    {
        let ghost pre = out@.map_values(f);
        match entity_match_at_x(s, i) {
            Some((ns, ne, e)) => {
                out.push((i, ns, ne, e));
                proof {
                    assert(out@.map_values(f) =~= pre + seq![EntityHit {
                        start: i as int,
                        name_start: ns as int,
                        name_end: ne as int,
                        end: e as int,
                    }]);
                }
                i = e;
            }
            None => {
                i = i + 1;
            }
        }
    }
    proof {
        assert(scan_entity_hits(s@, n as int) =~= Seq::<EntityHit>::empty());
        assert(out@.map_values(f) + scan_entity_hits(s@, n as int) =~= out@.map_values(f));
    }
    out
}

/// The character-level lifter over one source unit.
#[derive(Debug, Clone)]
pub struct VHDLParser {
    pub content: String,
}

impl VHDLParser {
    pub fn new(content: String) -> (r: VHDLParser)
        ensures
            r.content@ == content@,
    {
        VHDLParser { content }
    }

    /// Lifts every entity declaration of the unit, in declaration order. An
    /// entity with no port clause has no ports — that is not an error. A port
    /// declaration with an unknown mode keyword or an oversized range bound is
    /// fatal to its own entity only: that entity is dropped, the others lift,
    /// and the first such error is reported only when no entity lifted.
    /// Anything wrong with an architecture leaves its entity without one.
    #[verifier::rlimit(100)]
    pub fn parse_entities(&self) -> (r: Result<Vec<Entity>, ParseError>)
        ensures
            match r {
                Ok(es) => spec_parse_entities(self.content@) == Ok::<Seq<EntityV>, ParseErrorV>(
                    es@.map_values(|e: Entity| e@)),
                Err(e) => spec_parse_entities(self.content@) == Err::<Seq<EntityV>, ParseErrorV>(
                    e@),
            },
    {
        let s = str_chars(self.content.as_str());
        let hits = scan_entities_x(&s);
        let ghost f = |h: (usize, usize, usize, usize)| EntityHit {
            start: h.0 as int,
            name_start: h.1 as int,
            name_end: h.2 as int,
            end: h.3 as int,
        };
        let ghost hv = hits@.map_values(f);
        let n: usize = hits.len();
        let mut out: Vec<Entity> = Vec::new();
        let mut first_err: Option<ParseError> = None;
        let mut i: usize = 0;
        proof {
            assert(out@.map_values(|e: Entity| e@) =~= Seq::<EntityV>::empty());
        }
        while i < n
            invariant
                n == hv.len(),
                n == hits@.len(),
                hv == hits@.map_values(f),
                hv == scan_entity_hits(s@, 0),
                s@ == self.content@,
                f == (|h: (usize, usize, usize, usize)| EntityHit {
                    start: h.0 as int,
                    name_start: h.1 as int,
                    name_end: h.2 as int,
                    end: h.3 as int,
                }),
                forall|k: int| 0 <= k < hits@.len() ==> (#[trigger] hits@[k]).0 <= hits@[k].1
                    <= hits@[k].2 <= s@.len() && hits@[k].0 < hits@[k].3 <= s@.len(),
                i <= n,
                entities_fold(s@, hv, 0, Seq::empty(), None) == entities_fold(s@, hv, i as int,
                    out@.map_values(|e: Entity| e@), match &first_err {
                    Some(e) => Some(e@),
                    None => None,
                }),
            decreases n - i,
        {
            let ghost acc = out@.map_values(|e: Entity| e@);
            let ghost errv: Option<ParseErrorV> = match &first_err {
                Some(e) => Some(e@),
                None => None,
            };
            let (start, ns, ne, e_end) = hits[i];
            proof {
                assert(hits@.map_values(f)[i as int] == f(hits@[i as int]));
            }
            let name_chars = sub_vec(&s, ns, ne);
            let text = sub_vec(&s, start, e_end);
            let ports_ok: Option<Vec<Port>> = match find_port_clause_x(&text) {
                Some((a, b)) => {
                    match parse_ports_clause(&sub_vec(&text, a, b)) {
                        Ok(ps) => Some(ps),
                        Err(err) => {
                            proof {
                                assert(spec_entity_ports(s@.subrange(hv[i as int].start,
                                    hv[i as int].end)) == Err::<Seq<PortV>, ParseErrorV>(err@));
                            }
                            if first_err.is_none() {
                                first_err = Some(err);
                            }
                            None
                        }
                    }
                }
                None => {
                    let none_ports: Vec<Port> = Vec::new();
                    proof {
                        assert(none_ports@.map_values(|p: Port| p@) =~= Seq::<PortV>::empty());
                    }
                    Some(none_ports)
                }
            };
            match ports_ok {
                Some(ports) => {
                    let architecture = match arch_result_x(&s, &name_chars) {
                        Ok(a) => Some(a),
                        Err(_) => None,
                    };
                    let ent = Entity {
                        name: chars_to_string(&name_chars),
                        ports,
                        generics: Vec::new(),
                        architecture,
                    };
                    out.push(ent);
                    proof {
                        let h = hv[i as int];
                        let namev = s@.subrange(h.name_start, h.name_end);
                        assert(ent@.name == namev);
                        assert(ent@.generics =~= Seq::<GenericV>::empty());
                        assert(spec_entity_ports(s@.subrange(h.start, h.end)) == Ok::<Seq<PortV>,
                            ParseErrorV>(ent@.ports));
                        assert(out@.map_values(|x: Entity| x@) =~= acc + seq![ent@]);
                    }
                }
                None => {
                    proof {
                        assert(entities_fold(s@, hv, i as int, acc, errv) == entities_fold(s@, hv,
                            i + 1, acc, match &first_err {
                            Some(e) => Some(e@),
                            None => None,
                        }));
                    }
                }
            }
            i = i + 1;
        }
        if out.len() == 0 {
            match first_err {
                Some(e) => {
                    return Err(e);
                }
                None => {}
            }
        }
        proof {
            assert(out@.map_values(|e: Entity| e@).len() == out@.len());
        }
        Ok(out)
    }

    /// Reads one type text as the lifter resolves types.
    pub fn parse_type(&self, type_str: &str) -> (r: Result<VHDLType, ParseError>)
        ensures
            match r {
                Ok(t) => spec_parse_type(type_str@) == Ok::<TypeV, ()>(t@),
                Err(e) => spec_parse_type(type_str@) is Err && e@ is UnresolvableRange,
            },
    {
        parse_type_chars(&str_chars(type_str))
    }

    /// Lifts the first architecture body whose `of` clause names the entity.
    pub fn parse_architecture(&self, entity_name: &str) -> (r: Result<Architecture, ParseError>)
        ensures
            match r {
                Ok(a) => spec_arch_result(self.content@, entity_name@) == Ok::<ArchV, ParseErrorV>(
                    a@),
                Err(e) => spec_arch_result(self.content@, entity_name@) == Err::<ArchV,
                    ParseErrorV>(e@),
            },
    {
        let s = str_chars(self.content.as_str());
        arch_result_x(&s, &str_chars(entity_name))
    }
}

} // verus!
