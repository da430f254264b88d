//! The tree-walking lifter: from an owned concrete syntax tree to the IR.
//!
//! Its behaviour at the IR boundary matches the character-level lifter: the
//! two are alternate strategies over the same model.

use vstd::prelude::*;

use crate::errors::{ParseError, ParseErrorV};
use crate::ir::model::{Architecture, ArchV, Entity, EntityV, Generic, GenericV, Port, PortV,
    PortDirection, Process, ProcessV, Signal, SignalV, VHDLType, TypeV, VectorRange, RangeV,
    spec_dir_from};
use crate::parser::syntax_tree::{NodeV, SyntaxNode, VHDLASTHelper, all_of_kind, children_of_kind,
    node_view, spec_find_child, subtree_has_error};
use crate::text::{chars_to_string, contains_sub, int_dec, int_literal_val, lower_seq, str_chars,
    sub_vec, to_lower, trim, trim_spec};

verus! {

// ---------------------------------------------------------------------------
// Range bounds
// ---------------------------------------------------------------------------

/// The integer a bound expression denotes. A literal parses directly. A
/// non-literal expression cannot be evaluated without full expression
/// semantics; an expression that looks generic-dependent (it contains a minus
/// and is short) falls back to the documented default width of 7, anything
/// else fails.
pub open spec fn spec_node_i32(expr: NodeV) -> Result<int, ()> {
    match spec_find_child(expr, "integer_decimal"@) {
        Some(d) => {
            if int_literal_val(d.text) matches Some(v) && -0x8000_0000 <= v <= 0x7fff_ffff {
                Ok(int_literal_val(d.text)->Some_0)
            } else {
                Err(())
            }
        }
        None => {
            let t = trim_spec(expr.text);
            if int_literal_val(t) matches Some(v) && -0x8000_0000 <= v <= 0x7fff_ffff {
                Ok(int_literal_val(t)->Some_0)
            } else if contains_sub(t, "-"@) && t.len() < 20 {
                Ok(7)
            } else {
                Err(())
            }
        }
    }
}

fn node_i32(expr: &SyntaxNode) -> (r: Result<i32, ParseError>)
    ensures
        match r {
            Ok(v) => spec_node_i32(node_view(*expr)) == Ok::<int, ()>(v as int),
            Err(e) => spec_node_i32(node_view(*expr)) is Err && e@ is UnresolvableRange,
        },
{
    match VHDLASTHelper::find_child_by_type(expr, "integer_decimal") {
        Some(d) => {
            let cs = str_chars(VHDLASTHelper::node_text(d));
            match crate::text::parse_i32(&cs) {
                Some(v) => Ok(v),
                None => Err(ParseError::UnresolvableRange),
            }
        }
        None => {
            let t = trim(&str_chars(VHDLASTHelper::node_text(expr)));
            match crate::text::parse_i32(&t) {
                Some(v) => Ok(v),
                None => {
                    if crate::ir::gen::contains_str(&t, "-") && t.len() < 20 {
                        Ok(7)
                    } else {
                        Err(ParseError::UnresolvableRange)
                    }
                }
            }
        }
    }
}

// ---------------------------------------------------------------------------
// Vector ranges
// ---------------------------------------------------------------------------

/// The two bounds of a descending or ascending range node.
pub open spec fn spec_range_of(r: NodeV, downto: bool) -> Result<RangeV, ()> {
    let exprs = children_of_kind(r, "simple_expression"@, 0);
    if exprs.len() >= 2 {
        match spec_node_i32(exprs[0]) {
            Ok(left) => match spec_node_i32(exprs[1]) {
                Ok(right) => Ok(RangeV { left, right, downto }),
                Err(_) => Err(()),
            },
            Err(_) => Err(()),
        }
    } else {
        Err(())
    }
}

/// The range of an index constraint: a descending or an ascending child.
pub open spec fn spec_tree_range(ic: NodeV) -> Result<RangeV, ()> {
    match spec_find_child(ic, "descending_range"@) {
        Some(r) => spec_range_of(r, true),
        None => match spec_find_child(ic, "ascending_range"@) {
            Some(r) => spec_range_of(r, false),
            None => Err(()),
        },
    }
}

fn range_of(r: &SyntaxNode, downto: bool) -> (res: Result<VectorRange, ParseError>)
    ensures
        match res {
            Ok(v) => spec_range_of(node_view(*r), downto) == Ok::<RangeV, ()>(v@),
            Err(e) => spec_range_of(node_view(*r), downto) is Err && e@ is UnresolvableRange,
        },
{
    let exprs = VHDLASTHelper::find_children_by_type(r, "simple_expression");
    if exprs.len() >= 2 {
        proof {
            assert(exprs@.map_values(|c: &SyntaxNode| node_view(*c))[0] == node_view(*exprs@[0]));
            assert(exprs@.map_values(|c: &SyntaxNode| node_view(*c))[1] == node_view(*exprs@[1]));
        }
        let left = match node_i32(exprs[0]) {
            Ok(v) => v,
            Err(e) => {
                return Err(e);
            }
        };
        let right = match node_i32(exprs[1]) {
            Ok(v) => v,
            Err(e) => {
                return Err(e);
            }
        };
        Ok(VectorRange { left, right, downto })
    } else {
        Err(ParseError::UnresolvableRange)
    }
}

fn tree_range(ic: &SyntaxNode) -> (res: Result<VectorRange, ParseError>)
    ensures
        match res {
            Ok(v) => spec_tree_range(node_view(*ic)) == Ok::<RangeV, ()>(v@),
            Err(e) => spec_tree_range(node_view(*ic)) is Err && e@ is UnresolvableRange,
        },
{
    match VHDLASTHelper::find_child_by_type(ic, "descending_range") {
        Some(r) => range_of(r, true),
        None => match VHDLASTHelper::find_child_by_type(ic, "ascending_range") {
            Some(r) => range_of(r, false),
            None => Err(ParseError::UnresolvableRange),
        },
    }
}

// ---------------------------------------------------------------------------
// Types
// ---------------------------------------------------------------------------

/// The type a subtype indication denotes: the type mark's simple name read
/// case-insensitively, known scalars mapped directly, an array constraint
/// yielding the vector variants, anything else a custom type (an unresolved
/// constrained name keeps its left bound for diagnostics).
pub open spec fn spec_tree_type(st: NodeV) -> Result<TypeV, ParseErrorV> {
    match spec_find_child(st, "type_mark"@) {
        None => Err(ParseErrorV::MissingPortType),
        Some(tm) => match spec_find_child(tm, "simple_name"@) {
            None => Err(ParseErrorV::MissingPortType),
            Some(sn) => {
                let name = lower_seq(sn.text);
                if name == "std_logic"@ || name == "std_ulogic"@ {
                    Ok(TypeV::StdLogic)
                } else if name == "bit"@ {
                    Ok(TypeV::Bit)
                } else if name == "integer"@ {
                    Ok(TypeV::Integer)
                } else if name == "natural"@ {
                    Ok(TypeV::Natural)
                } else if name == "positive"@ {
                    Ok(TypeV::Positive)
                } else if name == "boolean"@ {
                    Ok(TypeV::Boolean)
                } else {
                    match spec_find_child(st, "array_constraint"@) {
                        Some(ac) => match spec_find_child(ac, "index_constraint"@) {
                            Some(ic) => match spec_tree_range(ic) {
                                Ok(r) => Ok(
                                    if name == "std_logic_vector"@ {
                                        TypeV::StdLogicVector(r)
                                    } else if name == "bit_vector"@ {
                                        TypeV::BitVector(r)
                                    } else if name == "signed"@ {
                                        TypeV::Signed(r)
                                    } else if name == "unsigned"@ {
                                        TypeV::Unsigned(r)
                                    } else {
                                        TypeV::Custom(name + "("@ + int_dec(r.left) + ")"@)
                                    },
                                ),
                                Err(_) => Err(ParseErrorV::UnresolvableRange),
                            },
                            None => Ok(TypeV::Custom(name)),
                        },
                        None => Ok(TypeV::Custom(name)),
                    }
                }
            }
        },
    }
}

pub fn tree_type(st: &SyntaxNode) -> (res: Result<VHDLType, ParseError>)
    ensures
        match res {
            Ok(t) => spec_tree_type(node_view(*st)) == Ok::<TypeV, ParseErrorV>(t@),
            Err(e) => spec_tree_type(node_view(*st)) == Err::<TypeV, ParseErrorV>(e@),
        },
{
    let tm = match VHDLASTHelper::find_child_by_type(st, "type_mark") {
        Some(tm) => tm,
        None => {
            return Err(ParseError::MissingPortType);
        }
    };
    let sn = match VHDLASTHelper::find_child_by_type(tm, "simple_name") {
        Some(sn) => sn,
        None => {
            return Err(ParseError::MissingPortType);
        }
    };
    let name = to_lower(&str_chars(VHDLASTHelper::node_text(sn)));
    if crate::ir::gen::eq_str(&name, "std_logic") || crate::ir::gen::eq_str(&name, "std_ulogic") {
        return Ok(VHDLType::StdLogic);
    }
    if crate::ir::gen::eq_str(&name, "bit") {
        return Ok(VHDLType::Bit);
    }
    if crate::ir::gen::eq_str(&name, "integer") {
        return Ok(VHDLType::Integer);
    }
    if crate::ir::gen::eq_str(&name, "natural") {
        return Ok(VHDLType::Natural);
    }
    if crate::ir::gen::eq_str(&name, "positive") {
        return Ok(VHDLType::Positive);
    }
    if crate::ir::gen::eq_str(&name, "boolean") {
        return Ok(VHDLType::Boolean);
    }
    let ic = match VHDLASTHelper::find_child_by_type(st, "array_constraint") {
        Some(ac) => match VHDLASTHelper::find_child_by_type(ac, "index_constraint") {
            Some(ic) => Some(ic),
            None => None,
        },
        None => None,
    };
    match ic {
        Some(ic) => {
            match tree_range(ic) {
                Ok(range) => {
                    if crate::ir::gen::eq_str(&name, "std_logic_vector") {
                        Ok(VHDLType::StdLogicVector(range))
                    } else if crate::ir::gen::eq_str(&name, "bit_vector") {
                        Ok(VHDLType::BitVector(range))
                    } else if crate::ir::gen::eq_str(&name, "signed") {
                        Ok(VHDLType::Signed(range))
                    } else if crate::ir::gen::eq_str(&name, "unsigned") {
                        Ok(VHDLType::Unsigned(range))
                    } else {
                        let mut label = sub_vec(&name, 0, name.len());
                        proof {
                            assert(name@.subrange(0, name@.len() as int) =~= name@);
                        }
                        label.push('(');
                        let digits = crate::text::i32_dec_chars(range.left);
                        crate::text::push_range(&mut label, &digits, 0, digits.len());
                        label.push(')');
                        proof {
                            reveal_strlit("(");
                            reveal_strlit(")");
                            assert("("@ =~= seq!['(']);
                            assert(")"@ =~= seq![')']);
                            assert(digits@.subrange(0, digits@.len() as int) =~= digits@);
                            assert(label@ =~= name@ + "("@ + int_dec(range@.left) + ")"@);
                        }
                        Ok(VHDLType::Custom(chars_to_string(&label)))
                    }
                }
                Err(_) => Err(ParseError::UnresolvableRange),
            }
        }
        None => Ok(VHDLType::Custom(chars_to_string(&name))),
    }
}

// ---------------------------------------------------------------------------
// Generics
// ---------------------------------------------------------------------------

/// The textual type name of a generic's subtype indication.
pub open spec fn spec_type_name(st: NodeV) -> Option<Seq<char>> {
    match spec_find_child(st, "type_mark"@) {
        Some(tm) => Some(tm.text),
        None => match spec_find_child(st, "identifier"@) {
            Some(id) => Some(id.text),
            None => None,
        },
    }
}

pub open spec fn ids_generics(ids: Seq<NodeV>, i: int, tn: Seq<char>, dv: Option<Seq<char>>)
    -> Seq<GenericV>
    decreases ids.len() - i,
{
    if 0 <= i < ids.len() {
        seq![GenericV { name: ids[i].text, generic_type: tn, default_value: dv }] + ids_generics(
            ids, i + 1, tn, dv)
    } else {
        Seq::empty()
    }
}

/// The generics of one interface declaration: the identifier list expanded
/// over one shared type and default; a declaration without identifiers or
/// type is an error.
pub open spec fn spec_tree_generic(decl: NodeV) -> Result<Seq<GenericV>, ParseErrorV> {
    match spec_find_child(decl, "identifier_list"@) {
        None => Err(ParseErrorV::MissingGenericType),
        Some(il) => {
            let ids = children_of_kind(il, "identifier"@, 0);
            if ids.len() == 0 {
                Err(ParseErrorV::MissingGenericType)
            } else {
                match spec_find_child(decl, "subtype_indication"@) {
                    None => Err(ParseErrorV::MissingGenericType),
                    Some(st) => match spec_type_name(st) {
                        None => Err(ParseErrorV::MissingGenericType),
                        Some(tn) => Ok(ids_generics(ids, 0, tn, match spec_find_child(decl,
                            "expression"@) {
                            Some(e) => Some(e.text),
                            None => None,
                        })),
                    },
                }
            }
        }
    }
}

pub open spec fn generics_fold(decls: Seq<NodeV>, i: int, acc: Seq<GenericV>) -> Result<Seq<
    GenericV>, ParseErrorV>
    decreases decls.len() - i,
{
    if 0 <= i < decls.len() {
        match spec_tree_generic(decls[i]) {
            Ok(gs) => generics_fold(decls, i + 1, acc + gs),
            Err(e) => Err(e),
        }
    } else {
        Ok(acc)
    }
}

/// The generics of a generic clause, in declaration order.
pub open spec fn spec_tree_generics(gc: NodeV) -> Result<Seq<GenericV>, ParseErrorV> {
    match spec_find_child(gc, "generic_interface_list"@) {
        Some(il) => generics_fold(children_of_kind(il, "interface_constant_declaration"@, 0), 0,
            Seq::empty()),
        None => Ok(Seq::empty()),
    }
}

fn tree_generic(decl: &SyntaxNode) -> (r: Result<Vec<Generic>, ParseError>)
    ensures
        match r {
            Ok(gs) => spec_tree_generic(node_view(*decl)) == Ok::<Seq<GenericV>, ParseErrorV>(
                gs@.map_values(|g: Generic| g@)),
            Err(e) => spec_tree_generic(node_view(*decl)) == Err::<Seq<GenericV>, ParseErrorV>(
                e@),
        },
{
    let il = match VHDLASTHelper::find_child_by_type(decl, "identifier_list") {
        Some(il) => il,
        None => {
            return Err(ParseError::MissingGenericType);
        }
    };
    let ids = VHDLASTHelper::find_children_by_type(il, "identifier");
    let ghost idsv = ids@.map_values(|c: &SyntaxNode| node_view(*c));
    if ids.len() == 0 {
        return Err(ParseError::MissingGenericType);
    }
    let st = match VHDLASTHelper::find_child_by_type(decl, "subtype_indication") {
        Some(st) => st,
        None => {
            return Err(ParseError::MissingGenericType);
        }
    };
    let tn = match VHDLASTHelper::find_child_by_type(st, "type_mark") {
        Some(tm) => VHDLASTHelper::node_text(tm),
        None => match VHDLASTHelper::find_child_by_type(st, "identifier") {
            Some(id) => VHDLASTHelper::node_text(id),
            None => {
                return Err(ParseError::MissingGenericType);
            }
        },
    };
    let default_value = match VHDLASTHelper::find_child_by_type(decl, "expression") {
        Some(e) => Some(chars_to_string(&str_chars(VHDLASTHelper::node_text(e)))),
        None => None,
    };
    let ghost tnv = tn@;
    let ghost dv: Option<Seq<char>> = match &default_value {
        Some(s) => Some(s@),
        None => None,
    };
    let n: usize = ids.len();
    let mut out: Vec<Generic> = Vec::new();
    let mut i: usize = 0;
    proof {
        assert(out@.map_values(|g: Generic| g@) + ids_generics(idsv, 0, tnv, dv) =~= ids_generics(
            idsv, 0, tnv, dv));
    }
    while i < n
        invariant
            n == idsv.len(),
            n == ids@.len(),
            idsv == ids@.map_values(|c: &SyntaxNode| node_view(*c)),
            tn@ == tnv,
            match default_value {
                Some(s) => dv == Some(s@),
                None => dv is None,
            },
            i <= n,
            ids_generics(idsv, 0, tnv, dv) == out@.map_values(|g: Generic| g@) + ids_generics(
                idsv, i as int, tnv, dv),
        decreases n - i,
    {
        let ghost pre = out@.map_values(|g: Generic| g@);
        proof {
            assert(ids@.map_values(|c: &SyntaxNode| node_view(*c))[i as int] == node_view(
                *ids@[i as int]));
        }
        let shared_default: Option<String> = match &default_value {
            Some(s) => Some(s.clone()),
            None => None,
        };
        let g = Generic {
            name: chars_to_string(&str_chars(VHDLASTHelper::node_text(ids[i]))),
            generic_type: chars_to_string(&str_chars(tn)),
            default_value: shared_default,
        };
        out.push(g);
        proof {
            assert(out@.map_values(|x: Generic| x@) =~= pre + seq![GenericV {
                name: idsv[i as int].text,
                generic_type: tnv,
                default_value: dv,
            }]);
        }
        i = i + 1;
    }
    proof {
        assert(ids_generics(idsv, n as int, tnv, dv) =~= Seq::<GenericV>::empty());
        assert(out@.map_values(|g: Generic| g@) + Seq::<GenericV>::empty() =~= out@.map_values(
            |g: Generic| g@));
    }
    Ok(out)
}

// ---------------------------------------------------------------------------
// Ports and signals
// ---------------------------------------------------------------------------

pub open spec fn ids_ports(ids: Seq<NodeV>, i: int, dir: PortDirection, ty: TypeV) -> Seq<PortV>
    decreases ids.len() - i,
{
    if 0 <= i < ids.len() {
        seq![PortV { name: ids[i].text, direction: dir, typ: ty }] + ids_ports(ids, i + 1, dir,
            ty)
    } else {
        Seq::empty()
    }
}

/// The ports of one interface declaration: the identifier list expanded over
/// one shared direction and type.
pub open spec fn spec_tree_port_decl(decl: NodeV) -> Result<Seq<PortV>, ParseErrorV> {
    match spec_find_child(decl, "identifier_list"@) {
        None => Err(ParseErrorV::MissingPortType),
        Some(il) => {
            let ids = children_of_kind(il, "identifier"@, 0);
            if ids.len() == 0 {
                Err(ParseErrorV::MissingPortType)
            } else {
                match spec_find_child(decl, "mode"@) {
                    None => Err(ParseErrorV::InvalidPortDirection(Seq::empty())),
                    Some(m) => match spec_dir_from(m.text) {
                        None => Err(ParseErrorV::InvalidPortDirection(m.text)),
                        Some(dir) => match spec_find_child(decl, "subtype_indication"@) {
                            None => Err(ParseErrorV::MissingPortType),
                            Some(st) => match spec_tree_type(st) {
                                Ok(ty) => Ok(ids_ports(ids, 0, dir, ty)),
                                Err(e) => Err(e),
                            },
                        },
                    },
                }
            }
        }
    }
}

pub open spec fn ports_fold_tree(decls: Seq<NodeV>, i: int, acc: Seq<PortV>) -> Result<Seq<PortV>,
    ParseErrorV>
    decreases decls.len() - i,
{
    if 0 <= i < decls.len() {
        match spec_tree_port_decl(decls[i]) {
            Ok(ps) => ports_fold_tree(decls, i + 1, acc + ps),
            Err(e) => Err(e),
        }
    } else {
        Ok(acc)
    }
}

/// The ports of a port clause, in declaration order and identifier order.
pub open spec fn spec_tree_ports(pc: NodeV) -> Result<Seq<PortV>, ParseErrorV> {
    ports_fold_tree(children_of_kind(pc, "signal_interface_declaration"@, 0), 0, Seq::empty())
}

fn tree_port_decl(decl: &SyntaxNode) -> (r: Result<Vec<Port>, ParseError>)
    ensures
        match r {
            Ok(ps) => spec_tree_port_decl(node_view(*decl)) == Ok::<Seq<PortV>, ParseErrorV>(
                ps@.map_values(|p: Port| p@)),
            Err(e) => spec_tree_port_decl(node_view(*decl)) == Err::<Seq<PortV>, ParseErrorV>(e@),
        },
{
    let il = match VHDLASTHelper::find_child_by_type(decl, "identifier_list") {
        Some(il) => il,
        None => {
            return Err(ParseError::MissingPortType);
        }
    };
    let ids = VHDLASTHelper::find_children_by_type(il, "identifier");
    let ghost idsv = ids@.map_values(|c: &SyntaxNode| node_view(*c));
    if ids.len() == 0 {
        return Err(ParseError::MissingPortType);
    }
    let m = match VHDLASTHelper::find_child_by_type(decl, "mode") {
        Some(m) => m,
        None => {
            let empty_word = String::new();
            proof {
                assert(empty_word@ =~= Seq::<char>::empty());
            }
            return Err(ParseError::InvalidPortDirection(empty_word));
        }
    };
    let mode_text = VHDLASTHelper::node_text(m);
    let dir = match PortDirection::from_vhdl(mode_text) {
        Some(dir) => dir,
        None => {
            return Err(ParseError::InvalidPortDirection(chars_to_string(&str_chars(mode_text))));
        }
    };
    let st = match VHDLASTHelper::find_child_by_type(decl, "subtype_indication") {
        Some(st) => st,
        None => {
            return Err(ParseError::MissingPortType);
        }
    };
    let ty = match tree_type(st) {
        Ok(ty) => ty,
        Err(e) => {
            return Err(e);
        }
    };
    let n: usize = ids.len();
    let mut out: Vec<Port> = Vec::new();
    let mut i: usize = 0;
    proof {
        assert(out@.map_values(|p: Port| p@) + ids_ports(idsv, 0, dir, ty@) =~= ids_ports(idsv, 0,
            dir, ty@));
    }
    while i < n
        invariant
            n == idsv.len(),
            n == ids@.len(),
            idsv == ids@.map_values(|c: &SyntaxNode| node_view(*c)),
            i <= n,
            ids_ports(idsv, 0, dir, ty@) == out@.map_values(|p: Port| p@) + ids_ports(idsv,
                i as int, dir, ty@),
            ty@ == ty@,
        decreases n - i,
    {
        let ghost pre = out@.map_values(|p: Port| p@);
        proof {
            assert(ids@.map_values(|c: &SyntaxNode| node_view(*c))[i as int] == node_view(
                *ids@[i as int]));
        }
        let name = chars_to_string(&str_chars(VHDLASTHelper::node_text(ids[i])));
        let port = Port { name, direction: dir, port_type: super::vhdl::dup_type_pub(&ty) };
        out.push(port);
        proof {
            assert(out@.map_values(|p: Port| p@) =~= pre + seq![PortV {
                name: idsv[i as int].text,
                direction: dir,
                typ: ty@,
            }]);
        }
        i = i + 1;
    }
    proof {
        assert(ids_ports(idsv, n as int, dir, ty@) =~= Seq::<PortV>::empty());
        assert(out@.map_values(|p: Port| p@) + Seq::<PortV>::empty() =~= out@.map_values(
            |p: Port| p@));
    }
    Ok(out)
}

pub open spec fn ids_signals(ids: Seq<NodeV>, i: int, ty: TypeV) -> Seq<SignalV>
    decreases ids.len() - i,
{
    if 0 <= i < ids.len() {
        seq![SignalV { name: ids[i].text, typ: ty }] + ids_signals(ids, i + 1, ty)
    } else {
        Seq::empty()
    }
}

/// The signals of one declaration: the identifier list expanded over one
/// shared type. A declaration may declare no identifiers and add nothing.
pub open spec fn spec_tree_signal_decl(decl: NodeV) -> Result<Seq<SignalV>, ParseErrorV> {
    match spec_find_child(decl, "identifier_list"@) {
        None => Err(ParseErrorV::MissingPortType),
        Some(il) => {
            let ids = children_of_kind(il, "identifier"@, 0);
            match spec_find_child(decl, "subtype_indication"@) {
                None => Err(ParseErrorV::MissingPortType),
                Some(st) => match spec_tree_type(st) {
                    Ok(ty) => Ok(ids_signals(ids, 0, ty)),
                    Err(e) => Err(e),
                },
            }
        }
    }
}

pub open spec fn signals_fold_tree(decls: Seq<NodeV>, i: int, acc: Seq<SignalV>) -> Result<Seq<
    SignalV>, ParseErrorV>
    decreases decls.len() - i,
{
    if 0 <= i < decls.len() {
        match spec_tree_signal_decl(decls[i]) {
            Ok(ss) => signals_fold_tree(decls, i + 1, acc + ss),
            Err(e) => Err(e),
        }
    } else {
        Ok(acc)
    }
}

/// Every signal declaration below the declarative part, in order.
pub open spec fn spec_tree_signals(dp: NodeV) -> Result<Seq<SignalV>, ParseErrorV> {
    signals_fold_tree(all_of_kind(dp, "signal_declaration"@), 0, Seq::empty())
}

fn tree_signal_decl(decl: &SyntaxNode) -> (r: Result<Vec<Signal>, ParseError>)
    ensures
        match r {
            Ok(ss) => spec_tree_signal_decl(node_view(*decl)) == Ok::<Seq<SignalV>, ParseErrorV>(
                ss@.map_values(|s: Signal| s@)),
            Err(e) => spec_tree_signal_decl(node_view(*decl)) == Err::<Seq<SignalV>, ParseErrorV>(
                e@),
        },
{
    let il = match VHDLASTHelper::find_child_by_type(decl, "identifier_list") {
        Some(il) => il,
        None => {
            return Err(ParseError::MissingPortType);
        }
    };
    let ids = VHDLASTHelper::find_children_by_type(il, "identifier");
    let ghost idsv = ids@.map_values(|c: &SyntaxNode| node_view(*c));
    let st = match VHDLASTHelper::find_child_by_type(decl, "subtype_indication") {
        Some(st) => st,
        None => {
            return Err(ParseError::MissingPortType);
        }
    };
    let ty = match tree_type(st) {
        Ok(ty) => ty,
        Err(e) => {
            return Err(e);
        }
    };
    let n: usize = ids.len();
    let mut out: Vec<Signal> = Vec::new();
    let mut i: usize = 0;
    proof {
        assert(out@.map_values(|s: Signal| s@) + ids_signals(idsv, 0, ty@) =~= ids_signals(idsv,
            0, ty@));
    }
    while i < n
        invariant
            n == idsv.len(),
            n == ids@.len(),
            idsv == ids@.map_values(|c: &SyntaxNode| node_view(*c)),
            i <= n,
            ids_signals(idsv, 0, ty@) == out@.map_values(|s: Signal| s@) + ids_signals(idsv,
                i as int, ty@),
        decreases n - i,
    {
        let ghost pre = out@.map_values(|s: Signal| s@);
        proof {
            assert(ids@.map_values(|c: &SyntaxNode| node_view(*c))[i as int] == node_view(
                *ids@[i as int]));
        }
        let name = chars_to_string(&str_chars(VHDLASTHelper::node_text(ids[i])));
        let sig = Signal { name, signal_type: super::vhdl::dup_type_pub(&ty) };
        out.push(sig);
        proof {
            assert(out@.map_values(|s: Signal| s@) =~= pre + seq![SignalV {
                name: idsv[i as int].text,
                typ: ty@,
            }]);
        }
        i = i + 1;
    }
    proof {
        assert(ids_signals(idsv, n as int, ty@) =~= Seq::<SignalV>::empty());
        assert(out@.map_values(|s: Signal| s@) + Seq::<SignalV>::empty() =~= out@.map_values(
            |s: Signal| s@));
    }
    Ok(out)
}

// ---------------------------------------------------------------------------
// Processes and concurrent statements
// ---------------------------------------------------------------------------

pub open spec fn names_texts(ns: Seq<NodeV>, i: int) -> Seq<Seq<char>>
    decreases ns.len() - i,
{
    if 0 <= i < ns.len() {
        seq![ns[i].text] + names_texts(ns, i + 1)
    } else {
        Seq::empty()
    }
}

/// Identifiers appended to the sensitivity names already taken, without
/// repeating one already present.
pub open spec fn add_idents(acc: Seq<Seq<char>>, ids: Seq<NodeV>, i: int) -> Seq<Seq<char>>
    decreases ids.len() - i,
{
    if 0 <= i < ids.len() {
        if acc.contains(ids[i].text) {
            add_idents(acc, ids, i + 1)
        } else {
            add_idents(acc + seq![ids[i].text], ids, i + 1)
        }
    } else {
        acc
    }
}

/// The entries of a sensitivity list: its simple names, then any bare
/// identifiers not already among them.
pub open spec fn spec_sens_list(sl: NodeV) -> Seq<Seq<char>> {
    let base = names_texts(children_of_kind(sl, "simple_name"@, 0), 0);
    add_idents(base, children_of_kind(sl, "identifier"@, 0), 0)
}

/// One process statement: optional label, sensitivity entries, and the raw
/// text of its statement sequence.
pub open spec fn spec_tree_process(pn: NodeV) -> ProcessV {
    ProcessV {
        label: match spec_find_child(pn, "label"@) {
            Some(l) => Some(l.text),
            None => None,
        },
        sensitivity_list: match spec_find_child(pn, "sensitivity_list"@) {
            Some(sl) => spec_sens_list(sl),
            None => Seq::empty(),
        },
        body: match spec_find_child(pn, "sequence_of_statements"@) {
            Some(sq) => sq.text,
            None => Seq::empty(),
        },
    }
}

pub open spec fn procs_list(ns: Seq<NodeV>, i: int) -> Seq<ProcessV>
    decreases ns.len() - i,
{
    if 0 <= i < ns.len() {
        seq![spec_tree_process(ns[i])] + procs_list(ns, i + 1)
    } else {
        Seq::empty()
    }
}

/// Concurrent-assignment nodes appended as trimmed text, in encounter order,
/// without repeating a fragment already taken.
pub open spec fn add_concurrents(acc: Seq<Seq<char>>, ns: Seq<NodeV>, i: int) -> Seq<Seq<char>>
    decreases ns.len() - i,
{
    if 0 <= i < ns.len() {
        let t = trim_spec(ns[i].text);
        if t.len() > 0 && !acc.contains(t) {
            add_concurrents(acc + seq![t], ns, i + 1)
        } else {
            add_concurrents(acc, ns, i + 1)
        }
    } else {
        acc
    }
}

/// All concurrent statements of the statement part, gathered over the several
/// node kinds the grammar uses for the different assignment forms.
pub open spec fn spec_tree_concurrents(sp: NodeV) -> Seq<Seq<char>> {
    let a1 = add_concurrents(Seq::empty(), all_of_kind(sp,
        "concurrent_signal_assignment_statement"@), 0);
    let a2 = add_concurrents(a1, all_of_kind(sp, "simple_concurrent_signal_assignment"@), 0);
    let a3 = add_concurrents(a2, all_of_kind(sp, "conditional_signal_assignment"@), 0);
    add_concurrents(a3, all_of_kind(sp, "selected_signal_assignment"@), 0)
}

fn tree_process(pn: &SyntaxNode) -> (r: Process)
    ensures
        r@ == spec_tree_process(node_view(*pn)),
{
    let label = match VHDLASTHelper::find_child_by_type(pn, "label") {
        Some(l) => Some(chars_to_string(&str_chars(VHDLASTHelper::node_text(l)))),
        None => None,
    };
    let sensitivity_list: Vec<String> = match VHDLASTHelper::find_child_by_type(pn,
        "sensitivity_list") {
        Some(sl) => {
            let mut names: Vec<String> = Vec::new();
            let sns = VHDLASTHelper::find_children_by_type(sl, "simple_name");
            let ghost snv = sns@.map_values(|c: &SyntaxNode| node_view(*c));
            let n1: usize = sns.len();
            let mut i: usize = 0;
            proof {
                assert(names@.map_values(|s: String| s@) + names_texts(snv, 0) =~= names_texts(
                    snv, 0));
            }
            while i < n1
                invariant
                    n1 == snv.len(),
                    n1 == sns@.len(),
                    snv == sns@.map_values(|c: &SyntaxNode| node_view(*c)),
                    i <= n1,
                    names_texts(snv, 0) == names@.map_values(|s: String| s@) + names_texts(snv,
                        i as int),
                decreases n1 - i,
            {
                let ghost pre = names@.map_values(|s: String| s@);
                proof {
                    assert(sns@.map_values(|c: &SyntaxNode| node_view(*c))[i as int] == node_view(
                        *sns@[i as int]));
                }
                let t = chars_to_string(&str_chars(VHDLASTHelper::node_text(sns[i])));
                names.push(t);
                proof {
                    assert(names@.map_values(|s: String| s@) =~= pre + seq![
                        snv[i as int].text]);
                }
                i = i + 1;
            }
            proof {
                assert(names_texts(snv, n1 as int) =~= Seq::<Seq<char>>::empty());
                assert(names@.map_values(|s: String| s@) + Seq::<Seq<char>>::empty()
                    =~= names@.map_values(|s: String| s@));
            }
            let ids = VHDLASTHelper::find_children_by_type(sl, "identifier");
            let ghost idv = ids@.map_values(|c: &SyntaxNode| node_view(*c));
            let n2: usize = ids.len();
            let mut j: usize = 0;
            while j < n2
                invariant
                    n2 == idv.len(),
                    n2 == ids@.len(),
                    idv == ids@.map_values(|c: &SyntaxNode| node_view(*c)),
                    j <= n2,
                    spec_sens_list(node_view(*sl)) == add_idents(names@.map_values(
                        |s: String| s@), idv, j as int),
                decreases n2 - j,
            {
                let ghost pre = names@.map_values(|s: String| s@);
                proof {
                    assert(ids@.map_values(|c: &SyntaxNode| node_view(*c))[j as int] == node_view(
                        *ids@[j as int]));
                }
                let t = str_chars(VHDLASTHelper::node_text(ids[j]));
                if !crate::ir::gen::name_in_list(&names, VHDLASTHelper::node_text(ids[j])) {
                    let owned = chars_to_string(&t);
                    names.push(owned);
                    proof {
                        assert(names@.map_values(|s: String| s@) =~= pre + seq![
                            idv[j as int].text]);
                    }
                }
                j = j + 1;
            }
            names
        }
        None => {
            let empty_names: Vec<String> = Vec::new();
            proof {
                assert(empty_names@.map_values(|s: String| s@) =~= Seq::<Seq<char>>::empty());
            }
            empty_names
        }
    };
    let body = match VHDLASTHelper::find_child_by_type(pn, "sequence_of_statements") {
        Some(sq) => chars_to_string(&str_chars(VHDLASTHelper::node_text(sq))),
        None => String::new(),
    };
    let r = Process { label, sensitivity_list, body };
    proof {
        assert(r@.sensitivity_list == spec_tree_process(node_view(*pn)).sensitivity_list);
    }
    r
}

/// Appends each node's trimmed text, skipping empties and repeats.
fn add_concurrents_x(acc: &mut Vec<String>, ns: &Vec<&SyntaxNode>)
    ensures
        final(acc)@.map_values(|s: String| s@) == add_concurrents(old(acc)@.map_values(
            |s: String| s@), ns@.map_values(|c: &SyntaxNode| node_view(*c)), 0),
{
    let ghost nv = ns@.map_values(|c: &SyntaxNode| node_view(*c));
    let n: usize = ns.len();
    let mut i: usize = 0;
    while i < n
        invariant
            n == nv.len(),
            n == ns@.len(),
            nv == ns@.map_values(|c: &SyntaxNode| node_view(*c)),
            i <= n,
            add_concurrents(old(acc)@.map_values(|s: String| s@), nv, 0) == add_concurrents(
                acc@.map_values(|s: String| s@), nv, i as int),
        decreases n - i,
    {
        let ghost pre = acc@.map_values(|s: String| s@);
        proof {
            assert(ns@.map_values(|c: &SyntaxNode| node_view(*c))[i as int] == node_view(
                *ns@[i as int]));
        }
        let t = trim(&str_chars(VHDLASTHelper::node_text(ns[i])));
        if t.len() > 0 {
            let owned = chars_to_string(&t);
            if !crate::ir::gen::name_in_list(acc, owned.as_str()) {
                acc.push(owned);
                proof {
                    assert(acc@.map_values(|s: String| s@) =~= pre + seq![trim_spec(
                        nv[i as int].text)]);
                }
            }
        }
        i = i + 1;
    }
}

// ---------------------------------------------------------------------------
// Architectures, entities, the whole unit
// ---------------------------------------------------------------------------

/// The entity an architecture declares itself `of`: the second identifier
/// child when the grammar exposes one, otherwise read out of the node's text
/// between ` of ` and ` is`.
pub open spec fn spec_arch_ref(an: NodeV) -> Option<Seq<char>> {
    let ids = children_of_kind(an, "identifier"@, 0);
    if ids.len() >= 2 {
        Some(ids[1].text)
    } else {
        let t = an.text;
        match crate::text::find_idx(t, " of "@, 0) {
            Some(o) => match crate::text::find_idx(t, " is"@, 0) {
                Some(ip) => {
                    if o + 4 <= ip {
                        Some(trim_spec(t.subrange(o + 4, ip)))
                    } else {
                        None
                    }
                }
                None => None,
            },
            None => None,
        }
    }
}

/// One architecture body, accepted only when its `of` clause names `ename`
/// exactly; any failure leaves the entity without an architecture.
pub open spec fn spec_tree_arch(an: NodeV, ename: Seq<char>) -> Result<ArchV, ()> {
    match spec_find_child(an, "identifier"@) {
        None => Err(()),
        Some(nm) => match spec_arch_ref(an) {
            None => Err(()),
            Some(r) => {
                if r != ename {
                    Err(())
                } else {
                    let sigs = match spec_find_child(an, "declarative_part"@) {
                        Some(dp) => spec_tree_signals(dp),
                        None => Ok(Seq::empty()),
                    };
                    match sigs {
                        Err(_) => Err(()),
                        Ok(ss) => Ok(ArchV {
                            name: nm.text,
                            signals: ss,
                            processes: match spec_find_child(an, "concurrent_statement_part"@) {
                                Some(sp) => procs_list(all_of_kind(sp, "process_statement"@), 0),
                                None => Seq::empty(),
                            },
                            concurrent_statements: match spec_find_child(an,
                                "concurrent_statement_part"@) {
                                Some(sp) => spec_tree_concurrents(sp),
                                None => Seq::empty(),
                            },
                        }),
                    }
                }
            }
        },
    }
}

/// The first architecture body in the unit that binds to `ename`.
pub open spec fn spec_arch_search(archs: Seq<NodeV>, i: int, ename: Seq<char>) -> Option<ArchV>
    decreases archs.len() - i,
{
    if 0 <= i < archs.len() {
        match spec_tree_arch(archs[i], ename) {
            Ok(a) => Some(a),
            Err(_) => spec_arch_search(archs, i + 1, ename),
        }
    } else {
        None
    }
}

fn tree_arch(an: &SyntaxNode, ename: &str) -> (r: Result<Architecture, ()>)
    ensures
        match r {
            Ok(a) => spec_tree_arch(node_view(*an), ename@) == Ok::<ArchV, ()>(a@),
            Err(_) => spec_tree_arch(node_view(*an), ename@) is Err,
        },
{
    let nm = match VHDLASTHelper::find_child_by_type(an, "identifier") {
        Some(nm) => nm,
        None => {
            return Err(());
        }
    };
    let ids = VHDLASTHelper::find_children_by_type(an, "identifier");
    let referenced: Vec<char> = if ids.len() >= 2 {
        proof {
            assert(ids@.map_values(|c: &SyntaxNode| node_view(*c))[1] == node_view(*ids@[1]));
        }
        str_chars(VHDLASTHelper::node_text(ids[1]))
    } else {
        let t = str_chars(VHDLASTHelper::node_text(an));
        let o = match crate::text::find(&t, &str_chars(" of "), 0) {
            Some(o) => o,
            None => {
                return Err(());
            }
        };
        let ip = match crate::text::find(&t, &str_chars(" is"), 0) {
            Some(ip) => ip,
            None => {
                return Err(());
            }
        };
        let tn: usize = t.len();
        proof {
            crate::text::lemma_find_idx_some(t@, " of "@, 0);
            crate::text::lemma_find_idx_some(t@, " is"@, 0);
            reveal_strlit(" of ");
            reveal_strlit(" is");
            assert(o + 4 <= tn);
            assert(ip <= tn);
        }
        if !(ip >= o && ip - o >= 4) {
            return Err(());
        }
        trim(&sub_vec(&t, o + 4, ip))
    };
    if !crate::text::seq_eq(&referenced, &str_chars(ename)) {
        return Err(());
    }
    let signals = match VHDLASTHelper::find_child_by_type(an, "declarative_part") {
        Some(dp) => {
            let decls = VHDLASTHelper::find_all_nodes_by_type(dp, "signal_declaration");
            let ghost dv = decls@.map_values(|c: &SyntaxNode| node_view(*c));
            let n: usize = decls.len();
            let mut out: Vec<Signal> = Vec::new();
            let mut i: usize = 0;
            proof {
                assert(out@.map_values(|s: Signal| s@) =~= Seq::<SignalV>::empty());
            }
            while i < n
                invariant
                    n == dv.len(),
                    n == decls@.len(),
                    dv == decls@.map_values(|c: &SyntaxNode| node_view(*c)),
                    i <= n,
                    signals_fold_tree(dv, 0, Seq::empty()) == signals_fold_tree(dv, i as int,
                        out@.map_values(|s: Signal| s@)),
                    signals_fold_tree(dv, 0, Seq::empty()) is Err ==> spec_tree_arch(node_view(
                        *an), ename@) is Err,
                decreases n - i,
            {
                let ghost acc = out@.map_values(|s: Signal| s@);
                proof {
                    assert(decls@.map_values(|c: &SyntaxNode| node_view(*c))[i as int]
                        == node_view(*decls@[i as int]));
                }
                match tree_signal_decl(decls[i]) {
                    Ok(mut ss) => {
                        let ghost newss = ss@.map_values(|s: Signal| s@);
                        out.append(&mut ss);
                        proof {
                            assert(out@.map_values(|s: Signal| s@) =~= acc + newss);
                        }
                    }
                    Err(_) => {
                        return Err(());
                    }
                }
                i = i + 1;
            }
            out
        }
        None => {
            let empty_sigs: Vec<Signal> = Vec::new();
            proof {
                assert(empty_sigs@.map_values(|s: Signal| s@) =~= Seq::<SignalV>::empty());
            }
            empty_sigs
        }
    };
    let (processes, concurrent_statements): (Vec<Process>, Vec<String>) =
        match VHDLASTHelper::find_child_by_type(an, "concurrent_statement_part") {
        Some(sp) => {
            let pns = VHDLASTHelper::find_all_nodes_by_type(sp, "process_statement");
            let ghost pnv = pns@.map_values(|c: &SyntaxNode| node_view(*c));
            let n: usize = pns.len();
            let mut procs: Vec<Process> = Vec::new();
            let mut i: usize = 0;
            proof {
                assert(procs@.map_values(|p: Process| p@) + procs_list(pnv, 0) =~= procs_list(pnv,
                    0));
            }
            while i < n
                invariant
                    n == pnv.len(),
                    n == pns@.len(),
                    pnv == pns@.map_values(|c: &SyntaxNode| node_view(*c)),
                    i <= n,
                    procs_list(pnv, 0) == procs@.map_values(|p: Process| p@) + procs_list(pnv,
                        i as int),
                decreases n - i,
            {
                let ghost pre = procs@.map_values(|p: Process| p@);
                proof {
                    assert(pns@.map_values(|c: &SyntaxNode| node_view(*c))[i as int] == node_view(
                        *pns@[i as int]));
                }
                let p = tree_process(pns[i]);
                procs.push(p);
                proof {
                    assert(procs@.map_values(|q: Process| q@) =~= pre + seq![spec_tree_process(
                        pnv[i as int])]);
                }
                i = i + 1;
            }
            proof {
                assert(procs_list(pnv, n as int) =~= Seq::<ProcessV>::empty());
                assert(procs@.map_values(|p: Process| p@) + Seq::<ProcessV>::empty()
                    =~= procs@.map_values(|p: Process| p@));
            }
            let mut concs: Vec<String> = Vec::new();
            proof {
                assert(concs@.map_values(|s: String| s@) =~= Seq::<Seq<char>>::empty());
            }
            let k1 = VHDLASTHelper::find_all_nodes_by_type(sp,
                "concurrent_signal_assignment_statement");
            add_concurrents_x(&mut concs, &k1);
            let k2 = VHDLASTHelper::find_all_nodes_by_type(sp,
                "simple_concurrent_signal_assignment");
            add_concurrents_x(&mut concs, &k2);
            let k3 = VHDLASTHelper::find_all_nodes_by_type(sp, "conditional_signal_assignment");
            add_concurrents_x(&mut concs, &k3);
            let k4 = VHDLASTHelper::find_all_nodes_by_type(sp, "selected_signal_assignment");
            add_concurrents_x(&mut concs, &k4);
            (procs, concs)
        }
        None => {
            let ep: Vec<Process> = Vec::new();
            let ec: Vec<String> = Vec::new();
            proof {
                assert(ep@.map_values(|p: Process| p@) =~= Seq::<ProcessV>::empty());
                assert(ec@.map_values(|s: String| s@) =~= Seq::<Seq<char>>::empty());
            }
            (ep, ec)
        }
    };
    let name = chars_to_string(&str_chars(VHDLASTHelper::node_text(nm)));
    Ok(Architecture { name, signals, processes, concurrent_statements })
}

/// One entity declaration and, from the whole unit, its first matching
/// architecture.
pub open spec fn spec_tree_entity(en: NodeV, root: NodeV) -> Result<EntityV, ParseErrorV> {
    match spec_find_child(en, "identifier"@) {
        None => Err(ParseErrorV::MissingEntityName),
        Some(nm) => {
            let gens = match spec_find_child(en, "generic_clause"@) {
                Some(gc) => spec_tree_generics(gc),
                None => Ok(Seq::empty()),
            };
            match gens {
                Err(e) => Err(e),
                Ok(gs) => {
                    let ports = match spec_find_child(en, "entity_header"@) {
                        Some(h) => match spec_find_child(h, "port_clause"@) {
                            Some(pc) => spec_tree_ports(pc),
                            None => Ok(Seq::empty()),
                        },
                        None => Ok(Seq::empty()),
                    };
                    match ports {
                        Err(e) => Err(e),
                        Ok(ps) => Ok(EntityV {
                            name: nm.text,
                            ports: ps,
                            generics: gs,
                            architecture: spec_arch_search(all_of_kind(root,
                                "architecture_body"@), 0, nm.text),
                        }),
                    }
                }
            }
        }
    }
}

/// The unit's entities with the first structural error among them: an entity
/// that cannot lift (missing name, bad mode keyword, missing type) is dropped
/// and the fold goes on.
pub open spec fn tree_entities_fold(root: NodeV, ens: Seq<NodeV>, i: int, acc: Seq<EntityV>,
    err: Option<ParseErrorV>) -> (Seq<EntityV>, Option<ParseErrorV>)
    decreases ens.len() - i,
{
    if 0 <= i < ens.len() {
        match spec_tree_entity(ens[i], root) {
            Ok(e) => tree_entities_fold(root, ens, i + 1, acc + seq![e], err),
            Err(e) => tree_entities_fold(root, ens, i + 1, acc, if err is Some {
                err
            } else {
                Some(e)
            }),
        }
    } else {
        (acc, err)
    }
}

/// Every entity of the unit that lifts, in declaration order. A tree with any
/// error-marked node is refused whole; a structural error is fatal to its own
/// entity only, and the first one is surfaced only when nothing lifted.
pub open spec fn spec_tree_entities(root: NodeV) -> Result<Seq<EntityV>, ParseErrorV> {
    if subtree_has_error(root) {
        Err(ParseErrorV::Syntax)
    } else {
        let folded = tree_entities_fold(root, all_of_kind(root, "entity_declaration"@), 0,
            Seq::empty(), None);
        if folded.0.len() == 0 && folded.1 is Some {
            Err(folded.1->Some_0)
        } else {
            Ok(folded.0)
        }
    }
}

fn tree_entity(en: &SyntaxNode, root: &SyntaxNode) -> (r: Result<Entity, ParseError>)
    ensures
        match r {
            Ok(e) => spec_tree_entity(node_view(*en), node_view(*root)) == Ok::<EntityV,
                ParseErrorV>(e@),
            Err(e) => spec_tree_entity(node_view(*en), node_view(*root)) == Err::<EntityV,
                ParseErrorV>(e@),
        },
{
    let nm = match VHDLASTHelper::find_child_by_type(en, "identifier") {
        Some(nm) => nm,
        None => {
            return Err(ParseError::MissingEntityName);
        }
    };
    let generics: Vec<Generic> = match VHDLASTHelper::find_child_by_type(en, "generic_clause") {
        Some(gc) => {
            match VHDLASTHelper::find_child_by_type(gc, "generic_interface_list") {
                Some(il) => {
                    let decls = VHDLASTHelper::find_children_by_type(il,
                        "interface_constant_declaration");
                    let ghost dv = decls@.map_values(|c: &SyntaxNode| node_view(*c));
                    let n: usize = decls.len();
                    let mut out: Vec<Generic> = Vec::new();
                    let mut i: usize = 0;
                    proof {
                        assert(out@.map_values(|g: Generic| g@) =~= Seq::<GenericV>::empty());
                    }
                    while i < n
                        invariant
                            n == dv.len(),
                            n == decls@.len(),
                            dv == decls@.map_values(|c: &SyntaxNode| node_view(*c)),
                            i <= n,
                            generics_fold(dv, 0, Seq::empty()) == generics_fold(dv, i as int,
                                out@.map_values(|g: Generic| g@)),
                            generics_fold(dv, 0, Seq::empty()) matches Err(e2)
                                ==> spec_tree_entity(node_view(*en), node_view(*root))
                                == Err::<EntityV, ParseErrorV>(e2),
                        decreases n - i,
                    {
                        let ghost acc = out@.map_values(|g: Generic| g@);
                        proof {
                            assert(decls@.map_values(|c: &SyntaxNode| node_view(*c))[i as int]
                                == node_view(*decls@[i as int]));
                        }
                        match tree_generic(decls[i]) {
                            Ok(mut gs) => {
                                let ghost newgs = gs@.map_values(|g: Generic| g@);
                                out.append(&mut gs);
                                proof {
                                    assert(out@.map_values(|x: Generic| x@) =~= acc + newgs);
                                }
                            }
                            Err(e) => {
                                return Err(e);
                            }
                        }
                        i = i + 1;
                    }
                    out
                }
                None => {
                    let eg: Vec<Generic> = Vec::new();
                    proof {
                        assert(eg@.map_values(|g: Generic| g@) =~= Seq::<GenericV>::empty());
                    }
                    eg
                }
            }
        }
        None => {
            let eg: Vec<Generic> = Vec::new();
            proof {
                assert(eg@.map_values(|g: Generic| g@) =~= Seq::<GenericV>::empty());
            }
            eg
        }
    };
    let pc: Option<&SyntaxNode> = match VHDLASTHelper::find_child_by_type(en, "entity_header") {
        Some(h) => VHDLASTHelper::find_child_by_type(h, "port_clause"),
        None => None,
    };
    let ports: Vec<Port> = match pc {
        Some(pc) => {
            let decls = VHDLASTHelper::find_children_by_type(pc, "signal_interface_declaration");
            let ghost dv = decls@.map_values(|c: &SyntaxNode| node_view(*c));
            let n: usize = decls.len();
            let mut out: Vec<Port> = Vec::new();
            let mut i: usize = 0;
            proof {
                assert(out@.map_values(|p: Port| p@) =~= Seq::<PortV>::empty());
            }
            while i < n
                invariant
                    n == dv.len(),
                    n == decls@.len(),
                    dv == decls@.map_values(|c: &SyntaxNode| node_view(*c)),
                    i <= n,
                    ports_fold_tree(dv, 0, Seq::empty()) == ports_fold_tree(dv, i as int,
                        out@.map_values(|p: Port| p@)),
                    ports_fold_tree(dv, 0, Seq::empty()) matches Err(e2) ==> spec_tree_entity(
                        node_view(*en), node_view(*root)) == Err::<EntityV, ParseErrorV>(e2),
                decreases n - i,
            {
                let ghost acc = out@.map_values(|p: Port| p@);
                proof {
                    assert(decls@.map_values(|c: &SyntaxNode| node_view(*c))[i as int]
                        == node_view(*decls@[i as int]));
                }
                match tree_port_decl(decls[i]) {
                    Ok(mut ps) => {
                        let ghost newps = ps@.map_values(|p: Port| p@);
                        out.append(&mut ps);
                        proof {
                            assert(out@.map_values(|p: Port| p@) =~= acc + newps);
                        }
                    }
                    Err(e) => {
                        return Err(e);
                    }
                }
                i = i + 1;
            }
            out
        }
        None => {
            let ep: Vec<Port> = Vec::new();
            proof {
                assert(ep@.map_values(|p: Port| p@) =~= Seq::<PortV>::empty());
            }
            ep
        }
    };
    // first matching architecture anywhere in the unit
    let name_text = VHDLASTHelper::node_text(nm);
    let archs = VHDLASTHelper::find_all_nodes_by_type(root, "architecture_body");
    let ghost av = archs@.map_values(|c: &SyntaxNode| node_view(*c));
    let na: usize = archs.len();
    let mut architecture: Option<Architecture> = None;
    let mut j: usize = 0;
    while j < na
        invariant
            na == av.len(),
            na == archs@.len(),
            av == archs@.map_values(|c: &SyntaxNode| node_view(*c)),
            name_text@ == node_view(*nm).text,
            j <= na,
            match architecture {
                None => spec_arch_search(av, 0, name_text@) == spec_arch_search(av, j as int,
                    name_text@),
                Some(a) => spec_arch_search(av, 0, name_text@) == Some(a@),
            },
        decreases na - j,
    {
        if architecture.is_none() {
            proof {
                assert(archs@.map_values(|c: &SyntaxNode| node_view(*c))[j as int] == node_view(
                    *archs@[j as int]));
            }
            match tree_arch(archs[j], name_text) {
                Ok(a) => {
                    proof {
                        assert(spec_arch_search(av, j as int, name_text@) == Some(a@));
                    }
                    architecture = Some(a);
                }
                Err(_) => {}
            }
        }
        j = j + 1;
    }
    proof {
        if architecture is None {
            assert(spec_arch_search(av, 0, name_text@) is None);
        }
    }
    let e = Entity {
        name: chars_to_string(&str_chars(name_text)),
        ports,
        generics,
        architecture,
    };
    Ok(e)
}

/// Lifts every entity of one parsed unit. A tree holding any error-marked
/// node is refused whole: lifting does not try to recover from a malformed
/// parse. A structural error (missing name, bad mode keyword, missing type)
/// is fatal to its own entity only: that entity is dropped, the others lift,
/// and the first such error is reported only when no entity lifted.
pub fn parse_entities_from_tree(root: &SyntaxNode) -> (r: Result<Vec<Entity>, ParseError>)
    ensures
        match r {
            Ok(es) => spec_tree_entities(node_view(*root)) == Ok::<Seq<EntityV>, ParseErrorV>(
                es@.map_values(|e: Entity| e@)),
            Err(e) => spec_tree_entities(node_view(*root)) == Err::<Seq<EntityV>, ParseErrorV>(
                e@),
        },
{
    if VHDLASTHelper::has_error(root) {
        return Err(ParseError::Syntax);
    }
    let ens = VHDLASTHelper::find_all_nodes_by_type(root, "entity_declaration");
    let ghost ev = ens@.map_values(|c: &SyntaxNode| node_view(*c));
    let n: usize = ens.len();
    let mut out: Vec<Entity> = Vec::new();
    let mut first_err: Option<ParseError> = None;
    let mut i: usize = 0;
    proof {
        assert(out@.map_values(|e: Entity| e@) =~= Seq::<EntityV>::empty());
    }
    while i < n
        invariant
            n == ev.len(),
            n == ens@.len(),
            ev == ens@.map_values(|c: &SyntaxNode| node_view(*c)),
            i <= n,
            !subtree_has_error(node_view(*root)),
            ev == all_of_kind(node_view(*root), "entity_declaration"@),
            tree_entities_fold(node_view(*root), ev, 0, Seq::empty(), None) == tree_entities_fold(
                node_view(*root), ev, i as int, out@.map_values(|e: Entity| e@),
                match &first_err {
                    Some(e) => Some(e@),
                    None => None,
                }),
        decreases n - i,
    {
        let ghost acc = out@.map_values(|e: Entity| e@);
        let ghost errv: Option<ParseErrorV> = match &first_err {
            Some(e) => Some(e@),
            None => None,
        };
        proof {
            assert(ens@.map_values(|c: &SyntaxNode| node_view(*c))[i as int] == node_view(
                *ens@[i as int]));
        }
        match tree_entity(ens[i], root) {
            Ok(e) => {
                out.push(e);
                proof {
                    assert(out@.map_values(|x: Entity| x@) =~= acc + seq![spec_tree_entity(
                        ev[i as int], node_view(*root))->Ok_0]);
                }
            }
            Err(e) => {
                if first_err.is_none() {
                    first_err = Some(e);
                }
                proof {
                    assert(tree_entities_fold(node_view(*root), ev, i as int, acc, errv)
                        == tree_entities_fold(node_view(*root), ev, i + 1, acc,
                        match &first_err {
                            Some(e2) => Some(e2@),
                            None => None,
                        }));
                }
            }
        }
        i = i + 1;
    }
    if out.len() == 0 {
        match first_err {
            Some(e) => {
                return Err(e);
            }
            None => {}
        }
    }
    proof {
        assert(out@.map_values(|e: Entity| e@).len() == out@.len());
    }
    Ok(out)
}

} // verus!
