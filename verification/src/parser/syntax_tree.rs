//! An owned concrete syntax tree.
//!
//! The grammar parser produces a tree whose nodes borrow from the parser; the
//! lifter never holds such handles. Instead the caller converts the parse
//! result into this owned form — each node carries its kind, its exact source
//! span as text, its error mark, and its children — and the lifter walks it.

use vstd::prelude::*;

use crate::text::str_chars;

verus! {

/// One node of the owned concrete syntax tree.
#[derive(Debug)]
pub struct SyntaxNode {
    /// The grammar's name for this node.
    pub kind: String,
    /// The exact source text this node spans.
    pub text: String,
    /// The parser marked this node itself as an error or as missing.
    pub is_error: bool,
    pub children: Vec<SyntaxNode>,
}

/// The mathematical view of a node.
pub struct NodeV {
    pub kind: Seq<char>,
    pub text: Seq<char>,
    pub is_error: bool,
    pub children: Seq<NodeV>,
}

pub open spec fn node_view(n: SyntaxNode) -> NodeV
    decreases n, 1int,
{
    NodeV {
        kind: n.kind@,
        text: n.text@,
        is_error: n.is_error,
        children: children_views(n, 0),
    }
}

pub open spec fn children_views(n: SyntaxNode, i: int) -> Seq<NodeV>
    decreases n, 0int, n.children@.len() - i,
{
    if 0 <= i < n.children@.len() {
        seq![node_view(n.children@[i])] + children_views(n, i + 1)
    } else {
        Seq::empty()
    }
}

pub proof fn lemma_children_views(n: SyntaxNode, i: int)
    requires
        0 <= i <= n.children@.len(),
    ensures
        children_views(n, i).len() == n.children@.len() - i,
        forall|k: int| i <= k < n.children@.len() ==> children_views(n, i)[k - i] == node_view(
            n.children@[k]),
    decreases n.children@.len() - i,
{
    if i < n.children@.len() {
        lemma_children_views(n, i + 1);
    }
}

/// The view's children are the views of the children, index by index.
pub proof fn lemma_node_view_children(n: SyntaxNode)
    ensures
        node_view(n).children.len() == n.children@.len(),
        forall|k: int| 0 <= k < n.children@.len() ==> node_view(n).children[k] == node_view(
            n.children@[k]),
{
    lemma_children_views(n, 0);
}

/// This node, or any node below it, is error-marked.
pub open spec fn subtree_has_error(n: NodeV) -> bool
    decreases n,
{
    n.is_error || subtree_err_list(n.children, 0)
}

pub open spec fn subtree_err_list(cs: Seq<NodeV>, i: int) -> bool
    decreases cs, cs.len() - i,
{
    if 0 <= i < cs.len() {
        subtree_has_error(cs[i]) || subtree_err_list(cs, i + 1)
    } else {
        false
    }
}

/// The first direct child of the given kind.
pub open spec fn find_child_from(n: NodeV, t: Seq<char>, i: int) -> Option<NodeV>
    decreases n.children.len() - i,
{
    if 0 <= i < n.children.len() {
        if n.children[i].kind == t {
            Some(n.children[i])
        } else {
            find_child_from(n, t, i + 1)
        }
    } else {
        None
    }
}

pub open spec fn spec_find_child(n: NodeV, t: Seq<char>) -> Option<NodeV> {
    find_child_from(n, t, 0)
}

/// All direct children of the given kind, in order (not recursive).
pub open spec fn children_of_kind(n: NodeV, t: Seq<char>, i: int) -> Seq<NodeV>
    decreases n.children.len() - i,
{
    if 0 <= i < n.children.len() {
        if n.children[i].kind == t {
            seq![n.children[i]] + children_of_kind(n, t, i + 1)
        } else {
            children_of_kind(n, t, i + 1)
        }
    } else {
        Seq::empty()
    }
}

/// All nodes of the given kind in the subtree, pre-order, including the node
/// itself.
pub open spec fn all_of_kind(n: NodeV, t: Seq<char>) -> Seq<NodeV>
    decreases n,
{
    (if n.kind == t {
        seq![n]
    } else {
        Seq::<NodeV>::empty()
    }) + all_of_kind_list(n.children, t, 0)
}

pub open spec fn all_of_kind_list(cs: Seq<NodeV>, t: Seq<char>, i: int) -> Seq<NodeV>
    decreases cs, cs.len() - i,
{
    if 0 <= i < cs.len() {
        all_of_kind(cs[i], t) + all_of_kind_list(cs, t, i + 1)
    } else {
        Seq::empty()
    }
}

/// The tree-query helpers the lifter walks the owned tree with: text span,
/// first child by kind, direct children by kind, all descendants by kind.
pub struct VHDLASTHelper;

impl VHDLASTHelper {
    /// The exact source text the node spans.
    pub fn node_text<'a>(node: &'a SyntaxNode) -> (r: &'a str)
        ensures
            r@ == node_view(*node).text,
    {
        node.text.as_str()
    }

    /// Does this node have the given kind?
    pub fn kind_is(node: &SyntaxNode, t: &str) -> (r: bool)
        ensures
            r == (node_view(*node).kind == t@),
    {
        crate::text::seq_eq(&str_chars(node.kind.as_str()), &str_chars(t))
    }

    /// The first direct child of the given kind.
    pub fn find_child_by_type<'a>(node: &'a SyntaxNode, t: &str) -> (r: Option<&'a SyntaxNode>)
        ensures
            match r {
                Some(c) => spec_find_child(node_view(*node), t@) == Some(node_view(*c)),
                None => spec_find_child(node_view(*node), t@) is None,
            },
    {
        proof {
            lemma_node_view_children(*node);
        }
        let ghost nv = node_view(*node);
        let n: usize = node.children.len();
        let mut i: usize = 0;
        while i < n
            invariant
                nv == node_view(*node),
                nv.children.len() == n,
                n == node.children@.len(),
                forall|k: int| 0 <= k < n ==> nv.children[k] == node_view(node.children@[k]),
                i <= n,
                find_child_from(nv, t@, 0) == find_child_from(nv, t@, i as int),
            decreases n - i,
        {
            if Self::kind_is(&node.children[i], t) {
                return Some(&node.children[i]);
            }
            i = i + 1;
        }
        None
    }

    /// All direct children of the given kind, in order.
    pub fn find_children_by_type<'a>(node: &'a SyntaxNode, t: &str) -> (r: Vec<&'a SyntaxNode>)
        ensures
            r@.map_values(|c: &SyntaxNode| node_view(*c)) == children_of_kind(node_view(*node),
                t@, 0),
    {
        proof {
            lemma_node_view_children(*node);
        }
        let ghost nv = node_view(*node);
        let n: usize = node.children.len();
        let mut out: Vec<&SyntaxNode> = Vec::new();
        let mut i: usize = 0;
        proof {
            assert(out@.map_values(|c: &SyntaxNode| node_view(*c)) + children_of_kind(nv, t@, 0)
                =~= children_of_kind(nv, t@, 0));
        }
        while i < n
            invariant
                nv == node_view(*node),
                nv.children.len() == n,
                n == node.children@.len(),
                forall|k: int| 0 <= k < n ==> nv.children[k] == node_view(node.children@[k]),
                i <= n,
                children_of_kind(nv, t@, 0) == out@.map_values(|c: &SyntaxNode| node_view(*c))
                    + children_of_kind(nv, t@, i as int),
            decreases n - i,
        {
            let ghost pre = out@.map_values(|c: &SyntaxNode| node_view(*c));
            if Self::kind_is(&node.children[i], t) {
                out.push(&node.children[i]);
                proof {
                    assert(out@.map_values(|c: &SyntaxNode| node_view(*c)) =~= pre + seq![
                        node_view(node.children@[i as int])]);
                }
            }
            i = i + 1;
        }
        proof {
            assert(children_of_kind(nv, t@, n as int) =~= Seq::<NodeV>::empty());
            assert(out@.map_values(|c: &SyntaxNode| node_view(*c)) + Seq::<NodeV>::empty()
                =~= out@.map_values(|c: &SyntaxNode| node_view(*c)));
        }
        out
    }

    /// All nodes of the given kind in the subtree, pre-order, including the
    /// node itself.
    pub fn find_all_nodes_by_type<'a>(node: &'a SyntaxNode, t: &str) -> (r: Vec<&'a SyntaxNode>)
        ensures
            r@.map_values(|c: &SyntaxNode| node_view(*c)) == all_of_kind(node_view(*node), t@),
        decreases *node,
    {
        proof {
            lemma_node_view_children(*node);
        }
        let ghost nv = node_view(*node);
        let mut out: Vec<&SyntaxNode> = Vec::new();
        if Self::kind_is(node, t) {
            out.push(node);
        }
        let ghost head = out@.map_values(|c: &SyntaxNode| node_view(*c));
        proof {
            if nv.kind == t@ {
                assert(head =~= seq![nv]);
            } else {
                assert(head =~= Seq::<NodeV>::empty());
            }
        }
        let n: usize = node.children.len();
        let mut i: usize = 0;
        proof {
            assert(head + all_of_kind_list(nv.children, t@, 0) =~= head + all_of_kind_list(
                nv.children, t@, 0));
        }
        while i < n
            invariant
                nv == node_view(*node),
                nv.children.len() == n,
                n == node.children@.len(),
                forall|k: int| 0 <= k < n ==> nv.children[k] == node_view(node.children@[k]),
                i <= n,
                out@.map_values(|c: &SyntaxNode| node_view(*c)) + all_of_kind_list(nv.children,
                    t@, i as int) == head + all_of_kind_list(nv.children, t@, 0),
            decreases n - i,
        {
            let ghost pre = out@.map_values(|c: &SyntaxNode| node_view(*c));
            let mut sub = Self::find_all_nodes_by_type(&node.children[i], t);
            let ghost subv = sub@.map_values(|c: &SyntaxNode| node_view(*c));
            let m: usize = sub.len();
            let mut k: usize = 0;
            while k < m
                invariant
                    m == sub@.len(),
                    subv == sub@.map_values(|c: &SyntaxNode| node_view(*c)),
                    k <= m,
                    out@.map_values(|c: &SyntaxNode| node_view(*c)) == pre + subv.take(k as int),
                decreases m - k,
            {
                let ghost cur = out@.map_values(|c: &SyntaxNode| node_view(*c));
                out.push(sub[k]);
                proof {
                    assert(sub@.map_values(|c: &SyntaxNode| node_view(*c))[k as int] == node_view(
                        *sub@[k as int]));
                    assert(out@.map_values(|c: &SyntaxNode| node_view(*c)) =~= cur + seq![
                        node_view(*sub@[k as int])]);
                    assert(cur + seq![node_view(*sub@[k as int])] =~= pre + subv.take(
                        k + 1 as int));
                }
                k = k + 1;
            }
            proof {
                assert(subv.take(m as int) =~= subv);
                assert(out@.map_values(|c: &SyntaxNode| node_view(*c)) =~= pre + subv);
            }
            i = i + 1;
        }
        proof {
            assert(all_of_kind_list(nv.children, t@, n as int) =~= Seq::<NodeV>::empty());
            assert(out@.map_values(|c: &SyntaxNode| node_view(*c)) + Seq::<NodeV>::empty()
                =~= out@.map_values(|c: &SyntaxNode| node_view(*c)));
            assert(out@.map_values(|c: &SyntaxNode| node_view(*c)) =~= all_of_kind(nv, t@));
        }
        out
    }

    /// This node, or any node below it, carries the parser's error mark.
    pub fn has_error(node: &SyntaxNode) -> (r: bool)
        ensures
            r == subtree_has_error(node_view(*node)),
        decreases *node,
    {
        proof {
            lemma_node_view_children(*node);
        }
        let ghost nv = node_view(*node);
        if node.is_error {
            return true;
        }
        let n: usize = node.children.len();
        let mut i: usize = 0;
        while i < n
            invariant
                nv == node_view(*node),
                nv.children.len() == n,
                n == node.children@.len(),
                forall|k: int| 0 <= k < n ==> nv.children[k] == node_view(node.children@[k]),
                i <= n,
                subtree_err_list(nv.children, 0) == subtree_err_list(nv.children, i as int),
            decreases n - i,
        {
            if Self::has_error(&node.children[i]) {
                return true;
            }
            i = i + 1;
        }
        false
    }
}

} // verus!
