//! The mathematical image of the key-space tree: nodes become records over
//! character sequences, child vectors become sequences of models.

use vstd::prelude::*;

use crate::kinds::RedisType;
use crate::tree::NodeType;
use crate::tree::TreeNode;

verus! {

/// The mathematical image of a tree node.
#[verifier::ext_equal]
pub struct NodeModel {
    pub name: Seq<char>,
    pub full_key: Option<Seq<char>>,
    pub node_type: NodeType,
    pub children: Seq<NodeModel>,
    pub expanded: bool,
    pub loaded: bool,
}

/// The model of one node, mapping its children recursively.
pub open spec fn node_model(n: TreeNode) -> NodeModel
    decreases n,
{
    NodeModel {
        name: n.name@,
        full_key: match n.full_key {
            Some(k) => Some(k@),
            None => None,
        },
        node_type: n.node_type,
        children: forest_model(n.children@),
        expanded: n.expanded,
        loaded: n.loaded,
    }
}

/// The model of a sibling list.
pub open spec fn forest_model(s: Seq<TreeNode>) -> Seq<NodeModel>
    decreases s,
{
    if s.len() == 0 {
        Seq::empty()
    } else {
        seq![node_model(s[0])] + forest_model(s.drop_first())
    }
}

pub broadcast proof fn lemma_forest_model_len(s: Seq<TreeNode>)
    ensures
        (#[trigger] forest_model(s)).len() == s.len(),
    decreases s.len(),
{
    if s.len() > 0 {
        lemma_forest_model_len(s.drop_first());
    }
}

pub broadcast proof fn lemma_forest_model_index(s: Seq<TreeNode>, i: int)
    requires
        0 <= i < s.len(),
    ensures
        (#[trigger] forest_model(s)[i]) == node_model(s[i]),
    decreases s.len(),
{
    lemma_forest_model_len(s);
    if i > 0 {
        lemma_forest_model_index(s.drop_first(), i - 1);
    }
}

/// A branch node: a folder, or a hybrid (a keyed node with children).
pub open spec fn is_branch(n: NodeModel) -> bool {
    n.node_type is Folder || n.children.len() > 0
}

/// Branch nodes order before pure leaves.
pub open spec fn node_class(n: NodeModel) -> int {
    if is_branch(n) {
        0
    } else {
        1
    }
}

/// Case-sensitive lexicographic order on names, by code point.
pub open spec fn lex_le(a: Seq<char>, b: Seq<char>) -> bool
    decreases a.len(),
{
    if a.len() == 0 {
        true
    } else if b.len() == 0 {
        false
    } else if a[0] == b[0] {
        lex_le(a.drop_first(), b.drop_first())
    } else {
        (a[0] as u32) < (b[0] as u32)
    }
}

/// The sibling order: by class (branches first), then by name.
pub open spec fn node_le(a: NodeModel, b: NodeModel) -> bool {
    ||| node_class(a) < node_class(b)
    ||| (node_class(a) == node_class(b) && lex_le(a.name, b.name))
}

/// Inserting a node behind every sibling that orders at or before it.
pub open spec fn insert_sorted_spec(n: NodeModel, s: Seq<NodeModel>) -> Seq<NodeModel>
    decreases s.len(),
{
    if s.len() == 0 {
        seq![n]
    } else if node_le(s[0], n) {
        seq![s[0]] + insert_sorted_spec(n, s.drop_first())
    } else {
        seq![n] + s
    }
}

/// Insertion sort of one sibling list.
pub open spec fn sort_siblings_spec(s: Seq<NodeModel>) -> Seq<NodeModel>
    decreases s.len(),
{
    if s.len() == 0 {
        Seq::empty()
    } else {
        insert_sorted_spec(s.last(), sort_siblings_spec(s.drop_last()))
    }
}

/// A node with its whole subtree sorted.
pub open spec fn sort_node_spec(n: NodeModel) -> NodeModel
    decreases n, 0int,
{
    NodeModel { children: sort_forest_spec(n.children), ..n }
}

/// Each node's subtree sorted, in sibling order.
pub open spec fn map_sort_children(s: Seq<NodeModel>) -> Seq<NodeModel>
    decreases s, 0int,
{
    if s.len() == 0 {
        Seq::empty()
    } else {
        seq![sort_node_spec(s[0])] + map_sort_children(s.drop_first())
    }
}

/// A forest with every sibling list sorted, recursively.
pub open spec fn sort_forest_spec(s: Seq<NodeModel>) -> Seq<NodeModel>
    decreases s, 1int,
{
    sort_siblings_spec(map_sort_children(s))
}

pub broadcast proof fn lemma_map_sort_children_len(s: Seq<NodeModel>)
    ensures
        (#[trigger] map_sort_children(s)).len() == s.len(),
    decreases s.len(),
{
    if s.len() > 0 {
        lemma_map_sort_children_len(s.drop_first());
    }
}

pub broadcast proof fn lemma_map_sort_children_index(s: Seq<NodeModel>, i: int)
    requires
        0 <= i < s.len(),
    ensures
        (#[trigger] map_sort_children(s)[i]) == sort_node_spec(s[i]),
    decreases s.len(),
{
    lemma_map_sort_children_len(s);
    if i > 0 {
        lemma_map_sort_children_index(s.drop_first(), i - 1);
    }
}

/// Inserting at the first position whose sibling does not order at or before
/// the new node splits the list there.
pub proof fn lemma_insert_sorted_split(n: NodeModel, s: Seq<NodeModel>, pos: int)
    requires
        0 <= pos <= s.len(),
        forall|j: int| 0 <= j < pos ==> node_le(#[trigger] s[j], n),
        pos < s.len() ==> !node_le(s[pos], n),
    ensures
        insert_sorted_spec(n, s) == s.take(pos) + seq![n] + s.skip(pos),
    decreases s.len(),
{
    if pos == 0 {
        assert(s.take(0) =~= Seq::<NodeModel>::empty());
        assert(s.skip(0) =~= s);
        assert(insert_sorted_spec(n, s) =~= s.take(0) + seq![n] + s.skip(0));
    } else {
        assert(node_le(s[0], n));
        lemma_insert_sorted_split(n, s.drop_first(), pos - 1);
        assert(s.drop_first().take(pos - 1) =~= s.take(pos).drop_first());
        assert(s.drop_first().skip(pos - 1) =~= s.skip(pos));
        assert(seq![s[0]] + (s.take(pos).drop_first() + seq![n] + s.skip(pos)) =~= s.take(pos)
            + seq![n] + s.skip(pos));
    }
}

/// The model of a fresh folder node.
pub open spec fn folder_model(name: Seq<char>) -> NodeModel {
    NodeModel {
        name,
        full_key: None,
        node_type: NodeType::Folder,
        children: Seq::empty(),
        expanded: false,
        loaded: true,
    }
}

/// The model of a fresh leaf node.
pub open spec fn key_model(name: Seq<char>, full_key: Seq<char>, kind: RedisType) -> NodeModel {
    NodeModel {
        name,
        full_key: Some(full_key),
        node_type: NodeType::Key(kind),
        children: Seq::empty(),
        expanded: false,
        loaded: true,
    }
}

} // verus!
