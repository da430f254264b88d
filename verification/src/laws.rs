//! The library's general guarantees, stated and proved once over the
//! rendering model rather than over chosen examples.

use vstd::prelude::*;

use crate::ir::gen::{BodyState, Dialect, count_char, insert_seq_at, rebalance_parens,
    remove_at, repeat_seq, replace_first, rfind_char, spec_case_step, spec_if_step,
    spec_is_control_flow, spec_line_convert, spec_module_header, spec_ops_rewrite,
    spec_port_line, spec_ports_section, spec_generate, spec_rewrite_literals, spec_strip_casts,
    trim_char_spec, trim_char_start, trim_char_end};
use crate::ir::model::{EntityV, PortDirection, RangeV, spec_dir_keyword, spec_range_brackets};
use crate::text::{contains_sub, dec_rep, digit_char_of, find_idx, is_digit_char, is_space_char,
    lemma_find_idx_some, match_at, replace_all, trim_end_spec, trim_spec, trim_start_spec};

verus! {

/// The line the module header devotes to port `i`: the indentation, the
/// rendered port, a comma on every line but the last, a newline.
pub open spec fn emitted_port_line(d: Dialect, e: EntityV, ind: Seq<char>, i: int) -> Seq<char> {
    ind + spec_port_line(d, e, e.ports[i]) + (if i < e.ports.len() - 1 {
        seq![',']
    } else {
        Seq::<char>::empty()
    }) + seq!['\n']
}

pub open spec fn emitted_port_lines(d: Dialect, e: EntityV, ind: Seq<char>) -> Seq<Seq<char>> {
    Seq::new(e.ports.len(), |i: int| emitted_port_line(d, e, ind, i))
}

proof fn lemma_sections_flatten(d: Dialect, e: EntityV, ind: Seq<char>, i: int)
    requires
        0 <= i <= e.ports.len(),
    ensures
        spec_ports_section(d, e, ind, i) == emitted_port_lines(d, e, ind).skip(i).flatten(),
    decreases e.ports.len() - i,
{
    let lines = emitted_port_lines(d, e, ind);
    if i < e.ports.len() {
        lemma_sections_flatten(d, e, ind, i + 1);
        assert(lines.skip(i).drop_first() =~= lines.skip(i + 1));
        assert(lines.skip(i)[0] == emitted_port_line(d, e, ind, i));
        assert(lines.skip(i).first() + lines.skip(i).drop_first().flatten() == lines.skip(
            i).flatten());
        assert(spec_ports_section(d, e, ind, i) =~= lines.skip(i)[0] + spec_ports_section(d, e,
            ind, i + 1));
    } else {
        assert(lines.skip(i) =~= Seq::<Seq<char>>::empty());
        assert(lines.skip(i).flatten() =~= Seq::<char>::empty());
    }
}

/// Port-order preservation: in both dialects the module header is exactly the
/// module line, then one line per port — the line at position `i` derived from
/// the IR's port at position `i` — then the closing of the port list. The
/// emitted order is the declaration order of the IR's port list.
pub proof fn lemma_port_order_preserved(d: Dialect, e: EntityV, ind: Seq<char>)
    ensures
        spec_module_header(d, e, ind) == "module "@ + e.name + " (\n"@ + emitted_port_lines(d, e,
            ind).flatten() + ");\n"@,
        forall|i: int| 0 <= i < e.ports.len() ==> emitted_port_lines(d, e, ind)[i]
            == emitted_port_line(d, e, ind, i),
{
    lemma_sections_flatten(d, e, ind, 0);
    assert(emitted_port_lines(d, e, ind).skip(0) =~= emitted_port_lines(d, e, ind));
}

/// Vector-range orientation invariant: a descending declaration and the
/// ascending declaration of the same physical span render to the same
/// `[msb:lsb]` bracket text.
pub proof fn lemma_range_orientation(msb: int, lsb: int)
    ensures
        spec_range_brackets(RangeV { left: msb, right: lsb, downto: true }) == spec_range_brackets(
            RangeV { left: lsb, right: msb, downto: false }),
{
}

/// Idempotence: rendering is a pure function of the entity's view and of the
/// indentation unit; equal inputs give byte-identical output. Each generator's
/// `generate` ensures its result is exactly this function of its input.
pub proof fn lemma_generation_deterministic(d: Dialect, e1: EntityV, e2: EntityV, ind1: Seq<char>,
    ind2: Seq<char>)
    requires
        e1 == e2,
        ind1 == ind2,
    ensures
        spec_generate(d, e1, ind1) == spec_generate(d, e2, ind2),
{
}

/// Buffer collapse: a `Buffer` port renders with the plain output keyword,
/// indistinguishable from an `Out` port's keyword, in both dialects (both
/// dialects share this keyword mapping).
pub proof fn lemma_buffer_collapse()
    ensures
        spec_dir_keyword(PortDirection::Buffer) == "output"@,
        spec_dir_keyword(PortDirection::Buffer) == spec_dir_keyword(PortDirection::Out),
{
}

/// Case-branch closing, the owed `end`: when a case construct is open and the
/// current branch has emitted a statement, the next branch label (or the case
/// footer) emits exactly one closing `end` before itself and resets the mark,
/// so a non-empty branch is closed exactly once.
pub proof fn lemma_case_branch_closes_once(d: Dialect, l: Seq<char>, st: BodyState,
    ind: Seq<char>)
    requires
        st.in_case,
        st.branch_has_stmt,
        match_at(l, "when "@, 0) || l == "end case"@ || l == "end case;"@,
    ensures
        spec_case_step(d, l, st, ind).pre == repeat_seq(ind, 2) + "end\n"@,
        !spec_case_step(d, l, st, ind).st.branch_has_stmt,
{
    reveal_strlit("when ");
    reveal_strlit("case ");
    reveal_strlit("end case");
    reveal_strlit("end case;");
    // a branch label or footer is never a case header
    assert(!match_at(l, "case "@, 0)) by {
        if match_at(l, "when "@, 0) {
            assert(l[0int + 0int] == "when "@[0int]);
        }
        if match_at(l, "case "@, 0) {
            assert(l[0int + 0int] == "case "@[0int]);
        }
    }
}

/// Case-branch closing, the empty branch: a branch that has emitted no
/// statement is closed by nothing — no spurious `end` precedes the next label
/// or the case footer.
pub proof fn lemma_empty_case_branch_closes_nothing(d: Dialect, l: Seq<char>, st: BodyState,
    ind: Seq<char>)
    requires
        !st.branch_has_stmt,
    ensures
        spec_case_step(d, l, st, ind).pre == Seq::<char>::empty(),
{
}

// ---------------------------------------------------------------------------
// Case-branch closing, the count: machinery
// ---------------------------------------------------------------------------

/// The character `c` does not occur in `s`.
pub open spec fn absent(s: Seq<char>, c: char) -> bool {
    forall|k: int| 0 <= k < s.len() ==> s[k] != c
}

proof fn lemma_absent_concat(a: Seq<char>, b: Seq<char>, c: char)
    requires
        absent(a, c),
        absent(b, c),
    ensures
        absent(a + b, c),
{
    assert forall|k: int| 0 <= k < (a + b).len() implies (a + b)[k] != c by {
        if k < a.len() {
            assert((a + b)[k] == a[k]);
        } else {
            assert((a + b)[k] == b[k - a.len()]);
        }
    }
}

proof fn lemma_absent_subrange(s: Seq<char>, a: int, b: int, c: char)
    requires
        absent(s, c),
        0 <= a <= b <= s.len(),
    ensures
        absent(s.subrange(a, b), c),
{
    assert forall|k: int| 0 <= k < b - a implies s.subrange(a, b)[k] != c by {
        assert(s.subrange(a, b)[k] == s[a + k]);
    }
}

proof fn lemma_absent_replace_all(s: Seq<char>, pat: Seq<char>, rep: Seq<char>, c: char)
    requires
        absent(s, c),
        absent(rep, c),
    ensures
        absent(replace_all(s, pat, rep), c),
    decreases s.len(),
{
    if pat.len() == 0 || s.len() < pat.len() {
    } else if match_at(s, pat, 0) {
        lemma_absent_subrange(s, pat.len() as int, s.len() as int, c);
        assert(s.skip(pat.len() as int) =~= s.subrange(pat.len() as int, s.len() as int));
        lemma_absent_replace_all(s.skip(pat.len() as int), pat, rep, c);
        lemma_absent_concat(rep, replace_all(s.skip(pat.len() as int), pat, rep), c);
    } else {
        lemma_absent_subrange(s, 1, s.len() as int, c);
        assert(s.skip(1) =~= s.subrange(1, s.len() as int));
        lemma_absent_replace_all(s.skip(1), pat, rep, c);
        assert(absent(seq![s[0]], c));
        lemma_absent_concat(seq![s[0]], replace_all(s.skip(1), pat, rep), c);
    }
}

proof fn lemma_absent_replace_first(s: Seq<char>, pat: Seq<char>, rep: Seq<char>, c: char)
    requires
        absent(s, c),
        absent(rep, c),
    ensures
        absent(replace_first(s, pat, rep), c),
{
    match find_idx(s, pat, 0) {
        Some(i) => {
            lemma_find_idx_some(s, pat, 0);
            lemma_absent_subrange(s, 0, i, c);
            lemma_absent_subrange(s, i + pat.len(), s.len() as int, c);
            assert(s.take(i) =~= s.subrange(0, i));
            assert(s.skip(i + pat.len()) =~= s.subrange(i + pat.len(), s.len() as int));
            lemma_absent_concat(s.take(i), rep, c);
            lemma_absent_concat(s.take(i) + rep, s.skip(i + pat.len()), c);
        }
        None => {}
    }
}

proof fn lemma_absent_insert(s: Seq<char>, i: int, what: Seq<char>, c: char)
    requires
        absent(s, c),
        absent(what, c),
        0 <= i <= s.len(),
    ensures
        absent(insert_seq_at(s, i, what), c),
{
    lemma_absent_subrange(s, 0, i, c);
    lemma_absent_subrange(s, i, s.len() as int, c);
    assert(s.take(i) =~= s.subrange(0, i));
    assert(s.skip(i) =~= s.subrange(i, s.len() as int));
    lemma_absent_concat(s.take(i), what, c);
    lemma_absent_concat(s.take(i) + what, s.skip(i), c);
}

proof fn lemma_absent_remove_at(s: Seq<char>, i: int, c: char)
    requires
        absent(s, c),
        0 <= i < s.len(),
    ensures
        absent(remove_at(s, i), c),
{
    lemma_absent_subrange(s, 0, i, c);
    lemma_absent_subrange(s, i + 1, s.len() as int, c);
    assert(s.take(i) =~= s.subrange(0, i));
    assert(s.skip(i + 1) =~= s.subrange(i + 1, s.len() as int));
    lemma_absent_concat(s.take(i), s.skip(i + 1), c);
}

proof fn lemma_absent_rebalance(s: Seq<char>, c: char)
    requires
        absent(s, c),
    ensures
        absent(rebalance_parens(s), c),
    decreases s.len(),
{
    if count_char(s, ')') > count_char(s, '(') {
        match rfind_char(s, ')') {
            Some(i) => {
                if count_char(remove_at(s, i), ')') < count_char(s, ')') && remove_at(s,
                    i).len() < s.len() {
                    lemma_rfind_in_range(s, ')');
                    lemma_absent_remove_at(s, i, c);
                    lemma_absent_rebalance(remove_at(s, i), c);
                }
            }
            None => {}
        }
    }
}

proof fn lemma_rfind_in_range(s: Seq<char>, c: char)
    requires
        rfind_char(s, c) is Some,
    ensures
        0 <= rfind_char(s, c)->Some_0 < s.len(),
    decreases s.len(),
{
    if s.len() > 0 && s.last() != c {
        lemma_rfind_in_range(s.drop_last(), c);
    }
}

/// A sequence without `'<'` cannot contain the assignment operator text.
proof fn lemma_no_angle_no_arrow(s: Seq<char>)
    requires
        absent(s, '<'),
    ensures
        !contains_sub(s, " <= "@),
{
    reveal_strlit(" <= ");
    if contains_sub(s, " <= "@) {
        lemma_find_idx_some(s, " <= "@, 0);
        let i = find_idx(s, " <= "@, 0)->Some_0;
        assert(s[i + 1] == " <= "@[1]);
    }
}

/// The decimal digits of a number hold no other characters.
proof fn lemma_dec_rep_absent(n: int, c: char)
    requires
        !is_digit_char(c),
    ensures
        absent(dec_rep(n), c),
    decreases n,
{
    if n <= 0 {
    } else if n < 10 {
    } else {
        lemma_dec_rep_absent(n / 10, c);
        lemma_absent_concat(dec_rep(n / 10), seq![digit_char_of(n % 10)], c);
    }
}

proof fn lemma_absent_trim_char_start(s: Seq<char>, t: char, c: char)
    requires
        absent(s, c),
    ensures
        absent(trim_char_start(s, t), c),
    decreases s.len(),
{
    if s.len() > 0 && s[0] == t {
        lemma_absent_subrange(s, 1, s.len() as int, c);
        assert(s.skip(1) =~= s.subrange(1, s.len() as int));
        lemma_absent_trim_char_start(s.skip(1), t, c);
    }
}

proof fn lemma_absent_trim_char_end(s: Seq<char>, t: char, c: char)
    requires
        absent(s, c),
    ensures
        absent(trim_char_end(s, t), c),
    decreases s.len(),
{
    if s.len() > 0 && s.last() == t {
        lemma_absent_subrange(s, 0, s.len() - 1, c);
        assert(s.drop_last() =~= s.subrange(0, s.len() - 1));
        lemma_absent_trim_char_end(s.drop_last(), t, c);
    }
}

proof fn lemma_absent_trim_start(s: Seq<char>, c: char)
    requires
        absent(s, c),
    ensures
        absent(trim_start_spec(s), c),
    decreases s.len(),
{
    if s.len() > 0 && is_space_char(s[0]) {
        lemma_absent_subrange(s, 1, s.len() as int, c);
        assert(s.skip(1) =~= s.subrange(1, s.len() as int));
        lemma_absent_trim_start(s.skip(1), c);
    }
}

proof fn lemma_absent_trim_end(s: Seq<char>, c: char)
    requires
        absent(s, c),
    ensures
        absent(trim_end_spec(s), c),
    decreases s.len(),
{
    if s.len() > 0 && is_space_char(s.last()) {
        lemma_absent_subrange(s, 0, s.len() - 1, c);
        assert(s.drop_last() =~= s.subrange(0, s.len() - 1));
        lemma_absent_trim_end(s.drop_last(), c);
    }
}

proof fn lemma_absent_trim(s: Seq<char>, c: char)
    requires
        absent(s, c),
    ensures
        absent(trim_spec(s), c),
{
    lemma_absent_trim_start(s, c);
    lemma_absent_trim_end(trim_start_spec(s), c);
}

/// The `if` translation introduces no `'<'`: every piece it splices in is
/// free of it.
proof fn lemma_if_step_no_angle(d: Dialect, l: Seq<char>)
    requires
        absent(l, '<'),
    ensures
        absent(spec_if_step(d, l), '<'),
{
    reveal_strlit("if ");
    reveal_strlit("if (");
    reveal_strlit(") begin");
    reveal_strlit(" begin");
    reveal_strlit("end else begin");
    reveal_strlit("end else if (");
    reveal_strlit("end");
    assert(absent("if ("@, '<'));
    assert(absent(") begin"@, '<'));
    assert(absent(" begin"@, '<'));
    assert(absent("end else begin"@, '<'));
    assert(absent("end else if ("@, '<'));
    assert(absent("end"@, '<'));
    assert(absent(seq!['('], '<'));
    assert(absent(seq![')'], '<'));
    let l1 = if match_at(l, "if("@, 0) {
        replace_first(l, "if("@, "if ("@)
    } else {
        l
    };
    lemma_absent_replace_first(l, "if("@, "if ("@, '<');
    assert(absent(l1, '<'));
    lemma_absent_replace_all(l1, " then"@, ") begin"@, '<');
    lemma_absent_replace_all(l1, " then"@, " begin"@, '<');
    let v2 = replace_all(l1, " then"@, ") begin"@);
    if v2.len() >= 3 {
        lemma_absent_insert(v2, 3, seq!['('], '<');
    }
    let s2 = replace_all(l1, " then"@, " begin"@);
    if s2.len() >= 3 {
        lemma_absent_insert(s2, 3, seq!['('], '<');
        let s3 = insert_seq_at(s2, 3, seq!['(']);
        match find_idx(s3, " begin"@, 0) {
            Some(i) => {
                lemma_find_idx_some(s3, " begin"@, 0);
                lemma_absent_insert(s3, i, seq![')'], '<');
            }
            None => {}
        }
    }
    match find_idx(s2, " begin"@, 0) {
        Some(i) => {
            lemma_find_idx_some(s2, " begin"@, 0);
            lemma_absent_insert(s2, i, seq![')'], '<');
        }
        None => {}
    }
    lemma_absent_replace_all(l1, " begin"@, ") begin"@, '<');
    lemma_absent_concat(l1, ") begin"@, '<');
    lemma_absent_concat(l1, " begin"@, '<');
    let e1 = replace_first(l, "elsif "@, "end else if ("@);
    lemma_absent_replace_first(l, "elsif "@, "end else if ("@, '<');
    lemma_absent_replace_all(e1, " then"@, ") begin"@, '<');
    lemma_absent_concat(replace_all(e1, " then"@, ") begin"@), " begin"@, '<');
}

/// The operator and cast rewrites introduce no `'<'` either.
proof fn lemma_tail_pipeline_no_angle(d: Dialect, l: Seq<char>)
    requires
        absent(l, '<'),
    ensures
        absent(rebalance_parens(spec_strip_casts(d, spec_ops_rewrite(
            spec_if_step(d, l)))), '<'),
{
    reveal_strlit(" & ");
    reveal_strlit(" | ");
    reveal_strlit(" ^ ");
    reveal_strlit(" ~");
    reveal_strlit("int'(");
    assert(absent(" & "@, '<'));
    assert(absent(" | "@, '<'));
    assert(absent(" ^ "@, '<'));
    assert(absent(" ~"@, '<'));
    assert(absent("int'("@, '<'));
    assert(absent(Seq::<char>::empty(), '<'));
    lemma_if_step_no_angle(d, l);
    let a = spec_if_step(d, l);
    let a1 = replace_all(a, " and "@, " & "@);
    let a2 = replace_all(a1, " or "@, " | "@);
    let a3 = replace_all(a2, " xor "@, " ^ "@);
    let a4 = replace_all(a3, " not "@, " ~"@);
    lemma_absent_replace_all(a, " and "@, " & "@, '<');
    lemma_absent_replace_all(a1, " or "@, " | "@, '<');
    lemma_absent_replace_all(a2, " xor "@, " ^ "@, '<');
    lemma_absent_replace_all(a3, " not "@, " ~"@, '<');
    let b1 = replace_all(a4, "std_logic_vector(unsigned("@, Seq::empty());
    let b2 = replace_all(b1, "std_logic_vector(signed("@, Seq::empty());
    let b3 = replace_all(b2, "std_logic_vector("@, Seq::empty());
    let b4 = replace_all(b3, "unsigned("@, Seq::empty());
    let b5 = replace_all(b4, "signed("@, Seq::empty());
    let b6 = replace_all(b5, "to_unsigned("@, Seq::empty());
    let b7 = replace_all(b6, "to_signed("@, Seq::empty());
    lemma_absent_replace_all(a4, "std_logic_vector(unsigned("@, Seq::empty(), '<');
    lemma_absent_replace_all(b1, "std_logic_vector(signed("@, Seq::empty(), '<');
    lemma_absent_replace_all(b2, "std_logic_vector("@, Seq::empty(), '<');
    lemma_absent_replace_all(b3, "unsigned("@, Seq::empty(), '<');
    lemma_absent_replace_all(b4, "signed("@, Seq::empty(), '<');
    lemma_absent_replace_all(b5, "to_unsigned("@, Seq::empty(), '<');
    lemma_absent_replace_all(b6, "to_signed("@, Seq::empty(), '<');
    lemma_absent_replace_all(b7, "to_integer("@, Seq::empty(), '<');
    lemma_absent_replace_all(b7, "to_integer("@, "int'("@, '<');
    lemma_absent_rebalance(spec_strip_casts(d, a4), '<');
}

/// A case header, label or footer line comes out of the case step without a
/// `'<'` when it went in without one: the labels and headers are rebuilt from
/// pieces of the line and glue free of it.
proof fn lemma_case_step_no_angle(d: Dialect, l: Seq<char>, st: BodyState, ind: Seq<char>)
    requires
        absent(l, '<'),
    ensures
        absent(spec_case_step(d, l, st, ind).line, '<'),
{
    reveal_strlit("case (");
    reveal_strlit("unique case (");
    reveal_strlit("default: begin");
    reveal_strlit(": begin");
    reveal_strlit("'b");
    reveal_strlit("endcase");
    assert(absent("case ("@, '<'));
    assert(absent("unique case ("@, '<'));
    assert(absent("default: begin"@, '<'));
    assert(absent(": begin"@, '<'));
    assert(absent("'b"@, '<'));
    assert(absent("endcase"@, '<'));
    assert(absent(Seq::<char>::empty(), '<'));
    if match_at(l, "case "@, 0) && contains_sub(l, " is"@) {
        let stripped = replace_all(l, " is"@, Seq::empty());
        lemma_absent_replace_all(l, " is"@, Seq::empty(), '<');
        lemma_absent_replace_first(stripped, "case "@, "case ("@, '<');
        lemma_absent_replace_first(stripped, "case "@, "unique case ("@, '<');
        let t = spec_case_step(d, l, st, ind).line;
        lemma_absent_concat(replace_first(stripped, "case "@, "case ("@), seq![')'], '<');
        lemma_absent_concat(replace_first(stripped, "case "@, "unique case ("@), seq![')'], '<');
        assert(absent(seq![')'], '<'));
    } else if match_at(l, "when "@, 0) {
        let ve = find_idx(l, " =>"@, 0);
        if ve is Some && ve->Some_0 >= 5 {
            lemma_find_idx_some(l, " =>"@, 0);
            reveal_strlit(" =>");
            let value = trim_spec(l.subrange(5, ve->Some_0));
            lemma_absent_subrange(l, 5, ve->Some_0, '<');
            lemma_absent_trim(l.subrange(5, ve->Some_0), '<');
            let b = trim_char_spec(value, '"');
            lemma_absent_trim_char_start(value, '"', '<');
            lemma_absent_trim_char_end(trim_char_start(value, '"'), '"', '<');
            lemma_dec_rep_absent(b.len() as int, '<');
            lemma_absent_concat(dec_rep(b.len() as int), "'b"@, '<');
            lemma_absent_concat(dec_rep(b.len() as int) + "'b"@, b, '<');
            lemma_absent_concat(dec_rep(b.len() as int) + "'b"@ + b, ": begin"@, '<');
            lemma_absent_concat(value, ": begin"@, '<');
        }
    }
}

// ---------------------------------------------------------------------------
// Case-branch closing, the count: line classification
// ---------------------------------------------------------------------------

/// What the case machinery sees of a raw body line: trimmed, literals
/// rewritten.
pub open spec fn conv_line(d: Dialect, raw: Seq<char>) -> Seq<char> {
    spec_rewrite_literals(d, trim_spec(raw))
}

/// A line the translator renders at all: not blank, not a comment, not an
/// edge-guard `if` (those vanish into the block header).
pub open spec fn is_active_line(raw: Seq<char>) -> bool {
    let t = trim_spec(raw);
    &&& t.len() > 0
    &&& !match_at(t, "--"@, 0)
    &&& !(match_at(t, "if"@, 0) && (contains_sub(t, "rising_edge"@) || contains_sub(t,
        "falling_edge"@)))
}

/// A case header whose expression holds no `'<'` (so it cannot be mistaken
/// for an assignment).
pub open spec fn is_plain_case_header(d: Dialect, raw: Seq<char>) -> bool {
    &&& is_active_line(raw)
    &&& match_at(conv_line(d, raw), "case "@, 0)
    &&& contains_sub(conv_line(d, raw), " is"@)
    &&& absent(conv_line(d, raw), '<')
}

/// A branch label whose value holds no `'<'`.
pub open spec fn is_plain_case_label(d: Dialect, raw: Seq<char>) -> bool {
    &&& is_active_line(raw)
    &&& match_at(conv_line(d, raw), "when "@, 0)
    &&& absent(conv_line(d, raw), '<')
}

pub open spec fn is_case_footer_line(d: Dialect, raw: Seq<char>) -> bool {
    &&& is_active_line(raw)
    &&& (conv_line(d, raw) == "end case"@ || conv_line(d, raw) == "end case;"@)
}

/// An active line inside a branch: neither a case header nor a label nor the
/// footer, so the case machinery passes it through.
pub open spec fn is_branch_content(d: Dialect, raw: Seq<char>) -> bool {
    &&& is_active_line(raw)
    &&& !(match_at(conv_line(d, raw), "case "@, 0) && contains_sub(conv_line(d, raw), " is"@))
    &&& !match_at(conv_line(d, raw), "when "@, 0)
    &&& conv_line(d, raw) != "end case"@
    &&& conv_line(d, raw) != "end case;"@
}

/// The line as finally rendered, after the whole statement pipeline.
pub open spec fn stmt_pipeline(d: Dialect, c: Seq<char>) -> Seq<char> {
    rebalance_parens(spec_strip_casts(d, spec_ops_rewrite(
        spec_if_step(d, c))))
}

/// A content line that marks its branch as non-empty: it renders as a plain
/// statement carrying a non-blocking assignment.
pub open spec fn sets_branch_flag(d: Dialect, raw: Seq<char>) -> bool {
    &&& !spec_is_control_flow(d, stmt_pipeline(d, conv_line(d, raw)))
    &&& contains_sub(stmt_pipeline(d, conv_line(d, raw)), " <= "@)
}

// ---------------------------------------------------------------------------
// Case-branch closing, the count: the trace
// ---------------------------------------------------------------------------

/// How many branch-closing `end` lines the translation of these lines emits.
pub open spec fn closes_count(d: Dialect, ls: Seq<Seq<char>>, st: BodyState, ind: Seq<char>)
    -> int
    decreases ls.len(),
{
    if ls.len() == 0 {
        0int
    } else {
        (if is_active_line(ls[0]) && spec_case_step(d, conv_line(d, ls[0]), st, ind).pre.len()
            > 0 {
            1int
        } else {
            0int
        }) + closes_count(d, ls.drop_first(), spec_line_convert(d, ls[0], st,
            ind).st, ind)
    }
}

/// The machine state after translating these lines.
pub open spec fn conv_state(d: Dialect, ls: Seq<Seq<char>>, st: BodyState, ind: Seq<char>)
    -> BodyState
    decreases ls.len(),
{
    if ls.len() == 0 {
        st
    } else {
        conv_state(d, ls.drop_first(), spec_line_convert(d, ls[0], st, ind).st,
            ind)
    }
}

/// The closing chunk is either absent or exactly the owed `end` line.
pub proof fn lemma_close_shape(d: Dialect, l: Seq<char>, st: BodyState, ind: Seq<char>)
    ensures
        spec_case_step(d, l, st, ind).pre == Seq::<char>::empty() || spec_case_step(d, l, st,
            ind).pre == repeat_seq(ind, 2) + "end\n"@,
{
}

proof fn lemma_count_concat(d: Dialect, a: Seq<Seq<char>>, b: Seq<Seq<char>>, st: BodyState,
    ind: Seq<char>)
    ensures
        closes_count(d, a + b, st, ind) == closes_count(d, a, st, ind) + closes_count(d, b,
            conv_state(d, a, st, ind), ind),
        conv_state(d, a + b, st, ind) == conv_state(d, b, conv_state(d, a, st, ind), ind),
    decreases a.len(),
{
    if a.len() == 0 {
        assert(a + b =~= b);
    } else {
        assert((a + b)[0] == a[0]);
        assert((a + b).drop_first() =~= a.drop_first() + b);
        lemma_count_concat(d, a.drop_first(), b, spec_line_convert(d, a[0], st,
            ind).st, ind);
    }
}

proof fn lemma_step_inactive(d: Dialect, raw: Seq<char>, st: BodyState, ind: Seq<char>)
    requires
        !is_active_line(raw),
    ensures
        spec_line_convert(d, raw, st, ind).st == st,
{
}

proof fn lemma_step_content(d: Dialect, raw: Seq<char>, st: BodyState, ind: Seq<char>)
    requires
        is_branch_content(d, raw),
        st.in_case,
    ensures
        spec_case_step(d, conv_line(d, raw), st, ind).pre.len() == 0,
        spec_line_convert(d, raw, st, ind).st.in_case == st.in_case,
        spec_line_convert(d, raw, st, ind).st.branch_has_stmt
            == (st.branch_has_stmt || sets_branch_flag(d, raw)),
{
}

proof fn lemma_step_label(d: Dialect, raw: Seq<char>, st: BodyState, ind: Seq<char>)
    requires
        is_plain_case_label(d, raw),
        st.in_case,
    ensures
        (spec_case_step(d, conv_line(d, raw), st, ind).pre.len() > 0) == st.branch_has_stmt,
        spec_line_convert(d, raw, st, ind).st.in_case,
        !spec_line_convert(d, raw, st, ind).st.branch_has_stmt,
{
    let c = conv_line(d, raw);
    reveal_strlit("when ");
    reveal_strlit("case ");
    reveal_strlit("end case");
    reveal_strlit("end case;");
    reveal_strlit("end\n");
    assert(!match_at(c, "case "@, 0)) by {
        if match_at(c, "when "@, 0) {
            assert(c[0int + 0int] == "when "@[0int]);
        }
        if match_at(c, "case "@, 0) {
            assert(c[0int + 0int] == "case "@[0int]);
        }
    }
    assert(c != "end case"@ && c != "end case;"@) by {
        assert(c[0int + 0int] == "when "@[0int]);
    }
    if st.branch_has_stmt {
        assert(spec_case_step(d, c, st, ind).pre == repeat_seq(ind, 2) + "end\n"@);
        assert((repeat_seq(ind, 2) + "end\n"@).len() > 0);
    }
    lemma_case_step_no_angle(d, c, st, ind);
    let out = spec_case_step(d, c, st, ind).line;
    lemma_tail_pipeline_no_angle(d, out);
    lemma_no_angle_no_arrow(stmt_pipeline(d, out));
}

proof fn lemma_step_header(d: Dialect, raw: Seq<char>, st: BodyState, ind: Seq<char>)
    requires
        is_plain_case_header(d, raw),
    ensures
        spec_case_step(d, conv_line(d, raw), st, ind).pre.len() == 0,
        spec_line_convert(d, raw, st, ind).st.in_case,
        !spec_line_convert(d, raw, st, ind).st.branch_has_stmt,
{
    let c = conv_line(d, raw);
    lemma_case_step_no_angle(d, c, st, ind);
    let out = spec_case_step(d, c, st, ind).line;
    lemma_tail_pipeline_no_angle(d, out);
    lemma_no_angle_no_arrow(stmt_pipeline(d, out));
}

proof fn lemma_step_footer(d: Dialect, raw: Seq<char>, st: BodyState, ind: Seq<char>)
    requires
        is_case_footer_line(d, raw),
    ensures
        (spec_case_step(d, conv_line(d, raw), st, ind).pre.len() > 0) == (st.in_case
            && st.branch_has_stmt),
        !spec_line_convert(d, raw, st, ind).st.in_case,
        !spec_line_convert(d, raw, st, ind).st.branch_has_stmt,
        spec_case_step(d, conv_line(d, raw), st, ind).line == "endcase"@,
{
    let c = conv_line(d, raw);
    reveal_strlit("when ");
    reveal_strlit("case ");
    reveal_strlit("end case");
    reveal_strlit("end case;");
    reveal_strlit("end\n");
    assert(!match_at(c, "case "@, 0)) by {
        if match_at(c, "case "@, 0) {
            assert(c[0int + 0int] == "case "@[0int]);
        }
    }
    assert(!match_at(c, "when "@, 0)) by {
        if match_at(c, "when "@, 0) {
            assert(c[0int + 0int] == "when "@[0int]);
        }
    }
    if st.in_case && st.branch_has_stmt {
        assert((repeat_seq(ind, 2) + "end\n"@).len() > 0);
    }
}

// ---------------------------------------------------------------------------
// Case-branch closing, the count: the theorem
// ---------------------------------------------------------------------------

/// One branch of a case construct: its label line and its body lines.
pub struct CaseBranch {
    pub label: Seq<char>,
    pub body: Seq<Seq<char>>,
}

/// A branch as the source grammar shapes it: a label, then lines that stay
/// inside the branch (statements, comments, blanks).
pub open spec fn branch_well_formed(d: Dialect, b: CaseBranch) -> bool {
    &&& is_plain_case_label(d, b.label)
    &&& forall|k: int| 0 <= k < b.body.len() ==> !is_active_line(b.body[k]) || is_branch_content(
        d, b.body[k])
}

/// The branch contains at least one statement.
pub open spec fn branch_has_statement(d: Dialect, b: CaseBranch) -> bool {
    exists|k: int| 0 <= k < b.body.len() && is_branch_content(d, b.body[k]) && sets_branch_flag(d,
        b.body[k])
}

pub open spec fn branch_lines(b: CaseBranch) -> Seq<Seq<char>> {
    seq![b.label] + b.body
}

pub open spec fn branches_lines(bs: Seq<CaseBranch>, i: int) -> Seq<Seq<char>>
    decreases bs.len() - i,
{
    if 0 <= i < bs.len() {
        branch_lines(bs[i]) + branches_lines(bs, i + 1)
    } else {
        Seq::empty()
    }
}

pub open spec fn nonempty_branch_count(d: Dialect, bs: Seq<CaseBranch>, i: int) -> int
    decreases bs.len() - i,
{
    if 0 <= i < bs.len() {
        (if branch_has_statement(d, bs[i]) {
            1int
        } else {
            0int
        }) + nonempty_branch_count(d, bs, i + 1)
    } else {
        0int
    }
}

proof fn lemma_body_trace(d: Dialect, body: Seq<Seq<char>>, st: BodyState, ind: Seq<char>)
    requires
        st.in_case,
        forall|k: int| 0 <= k < body.len() ==> !is_active_line(body[k]) || is_branch_content(d,
            body[k]),
    ensures
        closes_count(d, body, st, ind) == 0,
        conv_state(d, body, st, ind).in_case,
        conv_state(d, body, st, ind).branch_has_stmt == (st.branch_has_stmt || exists|k: int|
            0 <= k < body.len() && is_branch_content(d, body[k]) && sets_branch_flag(d, body[k])),
    decreases body.len(),
{
    if body.len() == 0 {
        assert(!(exists|k: int| 0 <= k < body.len() && is_branch_content(d, body[k])
            && sets_branch_flag(d, body[k])));
    } else {
        let rest = body.drop_first();
        let first_sets = is_branch_content(d, body[0]) && sets_branch_flag(d, body[0]);
        let st1 = spec_line_convert(d, body[0], st, ind).st;
        if is_active_line(body[0]) {
            lemma_step_content(d, body[0], st, ind);
        } else {
            lemma_step_inactive(d, body[0], st, ind);
        }
        assert(st1.in_case);
        assert(st1.branch_has_stmt == (st.branch_has_stmt || first_sets));
        assert(forall|k: int| 0 <= k < rest.len() ==> !is_active_line(#[trigger] rest[k])
            || is_branch_content(d, rest[k])) by {
            assert(forall|k: int| 0 <= k < rest.len() ==> #[trigger] rest[k] == body[k + 1]);
        }
        lemma_body_trace(d, rest, st1, ind);
        let e_rest = exists|k: int| 0 <= k < rest.len() && is_branch_content(d, rest[k])
            && sets_branch_flag(d, rest[k]);
        let e_body = exists|k: int| 0 <= k < body.len() && is_branch_content(d, body[k])
            && sets_branch_flag(d, body[k]);
        assert(e_body == (first_sets || e_rest)) by {
            if e_rest {
                let k = choose|k: int| 0 <= k < rest.len() && is_branch_content(d, rest[k])
                    && sets_branch_flag(d, rest[k]);
                assert(rest[k] == body[k + 1]);
                assert(is_branch_content(d, body[k + 1]) && sets_branch_flag(d, body[k + 1]));
            }
            if e_body {
                let k = choose|k: int| 0 <= k < body.len() && is_branch_content(d, body[k])
                    && sets_branch_flag(d, body[k]);
                if k > 0 {
                    assert(rest[k - 1] == body[k]);
                    assert(is_branch_content(d, rest[k - 1]) && sets_branch_flag(d, rest[k - 1]));
                }
            }
        }
    }
}

proof fn lemma_single_line(d: Dialect, raw: Seq<char>, st: BodyState, ind: Seq<char>)
    ensures
        closes_count(d, seq![raw], st, ind) == (if is_active_line(raw) && spec_case_step(d,
            conv_line(d, raw), st, ind).pre.len() > 0 {
            1int
        } else {
            0int
        }),
        conv_state(d, seq![raw], st, ind) == spec_line_convert(d, raw, st,
            ind).st,
{
    let l = seq![raw];
    assert(l.len() == 1);
    assert(l[0] == raw);
    assert(l.drop_first() =~= Seq::<Seq<char>>::empty());
    assert(closes_count(d, l.drop_first(), spec_line_convert(d, raw, st, ind).st,
        ind) == 0);
    assert(conv_state(d, l.drop_first(), spec_line_convert(d, raw, st, ind).st,
        ind) == spec_line_convert(d, raw, st, ind).st);
}

proof fn lemma_branch_trace(d: Dialect, b: CaseBranch, st: BodyState, ind: Seq<char>)
    requires
        branch_well_formed(d, b),
        st.in_case,
    ensures
        closes_count(d, branch_lines(b), st, ind) == (if st.branch_has_stmt {
            1int
        } else {
            0int
        }),
        conv_state(d, branch_lines(b), st, ind).in_case,
        conv_state(d, branch_lines(b), st, ind).branch_has_stmt == branch_has_statement(d, b),
{
    let lab = seq![b.label];
    lemma_count_concat(d, lab, b.body, st, ind);
    lemma_step_label(d, b.label, st, ind);
    lemma_single_line(d, b.label, st, ind);
    let st1 = spec_line_convert(d, b.label, st, ind).st;
    lemma_body_trace(d, b.body, st1, ind);
}

proof fn lemma_branches_trace(d: Dialect, bs: Seq<CaseBranch>, i: int, st: BodyState,
    ind: Seq<char>)
    requires
        st.in_case,
        forall|k: int| 0 <= k < bs.len() ==> branch_well_formed(d, #[trigger] bs[k]),
        0 <= i,
    ensures
        conv_state(d, branches_lines(bs, i), st, ind).in_case,
        conv_state(d, branches_lines(bs, i), st, ind).branch_has_stmt == (if i < bs.len() {
            branch_has_statement(d, bs[bs.len() - 1])
        } else {
            st.branch_has_stmt
        }),
        closes_count(d, branches_lines(bs, i), st, ind) == (if st.branch_has_stmt {
            1int
        } else {
            0int
        }) + nonempty_branch_count(d, bs, i) - (if conv_state(d, branches_lines(bs, i), st,
            ind).branch_has_stmt {
            1int
        } else {
            0int
        }),
    decreases bs.len() - i,
{
    if i < bs.len() {
        lemma_count_concat(d, branch_lines(bs[i]), branches_lines(bs, i + 1), st, ind);
        lemma_branch_trace(d, bs[i], st, ind);
        let st1 = conv_state(d, branch_lines(bs[i]), st, ind);
        lemma_branches_trace(d, bs, i + 1, st1, ind);
    }
}

/// Case-branch closing, the count, over a whole construct: the translation of
/// `case <expr> is`, then any number of branches, then `end case`, emits
/// exactly one branch-closing `end` line per branch that contains at least
/// one statement — and none for a branch without statements — and the footer
/// itself renders as the construct's one `endcase`.
#[verifier::rlimit(100)]
pub proof fn lemma_case_construct_close_count(d: Dialect, header: Seq<char>, bs: Seq<CaseBranch>,
    footer: Seq<char>, st: BodyState, ind: Seq<char>)
    requires
        is_plain_case_header(d, header),
        forall|k: int| 0 <= k < bs.len() ==> branch_well_formed(d, #[trigger] bs[k]),
        is_case_footer_line(d, footer),
    ensures
        closes_count(d, seq![header] + branches_lines(bs, 0) + seq![footer], st, ind)
            == nonempty_branch_count(d, bs, 0),
        !conv_state(d, seq![header] + branches_lines(bs, 0) + seq![footer], st, ind).in_case,
        spec_case_step(d, conv_line(d, footer), conv_state(d, seq![header] + branches_lines(bs,
            0), st, ind), ind).line == "endcase"@,
{
    let hd = seq![header];
    let ft = seq![footer];
    let mid = branches_lines(bs, 0);
    lemma_count_concat(d, hd, mid + ft, st, ind);
    lemma_count_concat(d, mid, ft, conv_state(d, hd, st, ind), ind);
    lemma_step_header(d, header, st, ind);
    lemma_single_line(d, header, st, ind);
    let st_h = spec_line_convert(d, header, st, ind).st;
    lemma_branches_trace(d, bs, 0, st_h, ind);
    let st_b = conv_state(d, mid, st_h, ind);
    lemma_step_footer(d, footer, st_b, ind);
    lemma_single_line(d, footer, st_b, ind);
    assert(hd + (mid + ft) =~= hd + mid + ft);
    lemma_count_concat(d, hd, mid, st, ind);
}

/// The headline form: with every branch holding at least one statement, a
/// construct of N branches is closed by exactly N branch-closing `end` lines,
/// one per branch, plus its one `endcase`.
pub proof fn lemma_case_construct_all_closed(d: Dialect, header: Seq<char>, bs: Seq<CaseBranch>,
    footer: Seq<char>, st: BodyState, ind: Seq<char>)
    requires
        is_plain_case_header(d, header),
        forall|k: int| 0 <= k < bs.len() ==> branch_well_formed(d, #[trigger] bs[k]),
        forall|k: int| 0 <= k < bs.len() ==> branch_has_statement(d, #[trigger] bs[k]),
        is_case_footer_line(d, footer),
    ensures
        closes_count(d, seq![header] + branches_lines(bs, 0) + seq![footer], st, ind)
            == bs.len(),
{
    lemma_case_construct_close_count(d, header, bs, footer, st, ind);
    lemma_nonempty_count_full(d, bs, 0);
}

proof fn lemma_nonempty_count_full(d: Dialect, bs: Seq<CaseBranch>, i: int)
    requires
        0 <= i <= bs.len(),
        forall|k: int| 0 <= k < bs.len() ==> branch_has_statement(d, #[trigger] bs[k]),
    ensures
        nonempty_branch_count(d, bs, i) == bs.len() - i,
    decreases bs.len() - i,
{
    if i < bs.len() {
        lemma_nonempty_count_full(d, bs, i + 1);
    }
}

} // verus!
