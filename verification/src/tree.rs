//! The key-space tree: nodes, the builder that grows a sorted hierarchy from
//! a flat key list, and the laws that hold of the result.
//!
//! Every structural statement is made over [`NodeModel`], the mathematical
//! image of a [`TreeNode`]: names and keys become character sequences and
//! child vectors become sequences of models.

use vstd::prelude::*;

use crate::kinds::RedisType;
use crate::laws::forest_sorted;
use crate::laws::lemma_build_sorted;
use crate::node_model::NodeModel;
use crate::node_model::folder_model;
use crate::node_model::forest_model;
use crate::node_model::insert_sorted_spec;
use crate::node_model::is_branch;
use crate::node_model::key_model;
use crate::node_model::lemma_forest_model_index;
use crate::node_model::lemma_forest_model_len;
use crate::node_model::lemma_insert_sorted_split;
use crate::node_model::lemma_map_sort_children_index;
use crate::node_model::lemma_map_sort_children_len;
use crate::node_model::lex_le;
use crate::node_model::map_sort_children;
use crate::node_model::node_le;
use crate::node_model::node_model;
use crate::node_model::sort_forest_spec;
use crate::node_model::sort_node_spec;
use crate::node_model::sort_siblings_spec;
use crate::segments::split_key;
use crate::segments::split_segments;
use crate::segments::segs_model;

verus! {

broadcast use
    lemma_forest_model_len,
    lemma_forest_model_index,
    lemma_map_sort_children_len,
    lemma_map_sort_children_index;


/// A node is a plain folder, or carries the kind of the stored key that ends
/// at it. A node with a key may still have children (a hybrid node).
#[derive(Debug, Clone, Copy, PartialEq, Eq, Structural)]
pub enum NodeType {
    Folder,
    Key(RedisType),
}

/// One path segment of the key space.
#[derive(Debug)]
pub struct TreeNode {
    /// The segment string (one delimiter-bounded token).
    pub name: String,
    /// Present iff this node is directly addressable as a store key.
    pub full_key: Option<String>,
    pub node_type: NodeType,
    /// Child nodes, with names unique among siblings.
    pub children: Vec<TreeNode>,
    /// View state only; not structural.
    pub expanded: bool,
    pub loaded: bool,
}

impl TreeNode {
    /// The mathematical image of this node.
    pub open spec fn model(self) -> NodeModel {
        node_model(self)
    }

    /// A fresh folder node with the given segment name.
    pub fn new_folder(name: String) -> (r: Self)
        ensures
            r.model() == folder_model(name@),
    {
        let r = Self {
            name,
            full_key: None,
            node_type: NodeType::Folder,
            children: Vec::new(),
            expanded: false,
            loaded: true,
        };
        proof {
            assert(forest_model(r.children@) =~= Seq::<NodeModel>::empty());
            assert(r.model() =~= folder_model(r.name@));
        }
        r
    }

    /// A fresh leaf node for a stored key of the given kind.
    pub fn new_key(name: String, full_key: String, redis_type: RedisType) -> (r: Self)
        ensures
            r.model() == key_model(name@, full_key@, redis_type),
    {
        let r = Self {
            name,
            full_key: Some(full_key),
            node_type: NodeType::Key(redis_type),
            children: Vec::new(),
            expanded: false,
            loaded: true,
        };
        proof {
            assert(forest_model(r.children@) =~= Seq::<NodeModel>::empty());
            assert(r.model() =~= key_model(r.name@, r.full_key->0@, redis_type));
        }
        r
    }

    /// Whether the node is a plain folder (no key of its own).
    pub fn is_folder(&self) -> (r: bool)
        ensures
            r == (self.node_type is Folder),
    {
        matches!(self.node_type, NodeType::Folder)
    }

    /// The number of direct children.
    pub fn child_count(&self) -> (r: usize)
        ensures
            r == self.children@.len(),
    {
        self.children.len()
    }
}

/// The index of the first sibling with the given name, or the list length if
/// no sibling has it.
pub open spec fn find_named(forest: Seq<NodeModel>, name: Seq<char>) -> int
    decreases forest.len(),
{
    if forest.len() == 0 {
        0
    } else if forest[0].name == name {
        0
    } else {
        1 + find_named(forest.drop_first(), name)
    }
}

/// `find_named` returns the least matching index, or the length.
pub proof fn lemma_find_named(forest: Seq<NodeModel>, name: Seq<char>)
    ensures
        0 <= find_named(forest, name) <= forest.len(),
        find_named(forest, name) < forest.len() ==> forest[find_named(forest, name)].name == name,
        forall|j: int| 0 <= j < find_named(forest, name) ==> forest[j].name != name,
    decreases forest.len(),
{
    if forest.len() == 0 {
    } else if forest[0].name == name {
    } else {
        lemma_find_named(forest.drop_first(), name);
        let rec = find_named(forest.drop_first(), name);
        assert forall|j: int| 0 <= j < 1 + rec implies forest[j].name != name by {
            if j > 0 {
                assert(forest[j] == forest.drop_first()[j - 1]);
            }
        }
    }
}

/// Inserting one key's remaining segment path into a sibling list.
///
/// At each level the first sibling with the segment's name is reused; on the
/// last segment the node's key and kind are set to this key's (last write
/// wins), its children untouched; missing nodes are appended at the end.
pub open spec fn insert_parts_spec(
    forest: Seq<NodeModel>,
    parts: Seq<Seq<char>>,
    full_key: Seq<char>,
    kind: RedisType,
) -> Seq<NodeModel>
    decreases parts.len(),
{
    if parts.len() == 0 {
        forest
    } else {
        let name = parts[0];
        let idx = find_named(forest, name);
        if parts.len() == 1 {
            if idx == forest.len() {
                forest.push(key_model(name, full_key, kind))
            } else {
                forest.update(
                    idx,
                    NodeModel {
                        full_key: Some(full_key),
                        node_type: NodeType::Key(kind),
                        ..forest[idx]
                    },
                )
            }
        } else {
            if idx == forest.len() {
                forest.push(
                    NodeModel {
                        children: insert_parts_spec(
                            Seq::empty(),
                            parts.drop_first(),
                            full_key,
                            kind,
                        ),
                        ..folder_model(name)
                    },
                )
            } else {
                forest.update(
                    idx,
                    NodeModel {
                        children: insert_parts_spec(
                            forest[idx].children,
                            parts.drop_first(),
                            full_key,
                            kind,
                        ),
                        ..forest[idx]
                    },
                )
            }
        }
    }
}

/// Inserting one key: split it, drop it if no segments remain, else insert
/// its segment path.
pub open spec fn insert_key_spec(
    forest: Seq<NodeModel>,
    key: Seq<char>,
    kind: RedisType,
    delims: Seq<char>,
) -> Seq<NodeModel> {
    let parts = split_segments(key, delims);
    if parts.len() == 0 {
        forest
    } else {
        insert_parts_spec(forest, parts, key, kind)
    }
}

/// Case-sensitive lexicographic comparison of two names, by code point.
fn str_le(a: &str, b: &str) -> (r: bool)
    ensures
        r == lex_le(a@, b@),
{
    let an = a.unicode_len();
    let bn = b.unicode_len();
    let mut i: usize = 0;
    proof {
        assert(a@.skip(0) =~= a@);
        assert(b@.skip(0) =~= b@);
    }
    while i < an && i < bn
        invariant
            i <= an,
            i <= bn,
            an == a@.len(),
            bn == b@.len(),
            lex_le(a@, b@) == lex_le(a@.skip(i as int), b@.skip(i as int)),
        decreases an - i,
    {
        let ca = a.get_char(i);
        let cb = b.get_char(i);
        proof {
            assert(a@.skip(i as int)[0] == a@[i as int]);
            assert(b@.skip(i as int)[0] == b@[i as int]);
            assert(a@.skip(i as int).drop_first() =~= a@.skip(i + 1));
            assert(b@.skip(i as int).drop_first() =~= b@.skip(i + 1));
        }
        if ca != cb {
            return (ca as u32) < (cb as u32);
        }
        i += 1;
    }
    proof {
        if i == an {
            assert(a@.skip(i as int).len() == 0);
        } else {
            assert(b@.skip(i as int).len() == 0);
            assert(a@.skip(i as int).len() > 0);
        }
    }
    an <= bn
}

/// The sibling order: branches (folders and hybrids) before pure leaves,
/// then by name.
fn node_le_exec(a: &TreeNode, b: &TreeNode) -> (r: bool)
    ensures
        r == node_le(node_model(*a), node_model(*b)),
{
    let a_branch = matches!(a.node_type, NodeType::Folder) || a.children.len() > 0;
    let b_branch = matches!(b.node_type, NodeType::Folder) || b.children.len() > 0;
    proof {
        assert(a_branch == is_branch(node_model(*a)));
        assert(b_branch == is_branch(node_model(*b)));
    }
    if a_branch == b_branch {
        str_le(self_name(a), self_name(b))
    } else {
        a_branch
    }
}

/// The node's segment name.
fn self_name(n: &TreeNode) -> (r: &str)
    ensures
        r@ == node_model(*n).name,
{
    n.name.as_str()
}

/// Insert a node behind every sibling that orders at or before it.
fn insert_in_order(out: &mut Vec<TreeNode>, node: TreeNode)
    ensures
        forest_model(final(out)@) == insert_sorted_spec(node_model(node), forest_model(old(out)@)),
{
    let ghost fm = forest_model(old(out)@);
    let n = out.len();
    let mut pos: usize = 0;
    while pos < n && node_le_exec(&out[pos], &node)
        invariant
            pos <= n,
            n == out@.len(),
            fm == forest_model(old(out)@),
            fm.len() == n,
            out@ == old(out)@,
            forall|j: int| 0 <= j < pos ==> node_le(#[trigger] fm[j], node_model(node)),
        decreases n - pos,
    {
        proof {
            lemma_forest_model_index(old(out)@, pos as int);
            assert(fm[pos as int] == node_model(out@[pos as int]));
            assert(node_le(fm[pos as int], node_model(node)));
        }
        pos += 1;
    }
    proof {
        if pos < n {
            lemma_forest_model_index(old(out)@, pos as int);
        }
    }
    proof {
        lemma_insert_sorted_split(node_model(node), fm, pos as int);
    }
    out.insert(pos, node);
    proof {
        assert(forest_model(out@) =~= fm.take(pos as int) + seq![node_model(node)] + fm.skip(
            pos as int,
        ));
    }
}

/// Inserting a whole key list, in order, into an empty forest.
pub open spec fn insert_all_spec(
    keys: Seq<(Seq<char>, RedisType)>,
    delims: Seq<char>,
) -> Seq<NodeModel>
    decreases keys.len(),
{
    if keys.len() == 0 {
        Seq::empty()
    } else {
        insert_key_spec(
            insert_all_spec(keys.drop_last(), delims),
            keys.last().0,
            keys.last().1,
            delims,
        )
    }
}

/// The views of a key list.
pub open spec fn keys_model(keys: Seq<(String, RedisType)>) -> Seq<(Seq<char>, RedisType)> {
    Seq::new(keys.len(), |i: int| (keys[i].0@, keys[i].1))
}

/// The complete build: insert every key, then sort every sibling list.
pub open spec fn build_spec(
    keys: Seq<(Seq<char>, RedisType)>,
    delims: Seq<char>,
) -> Seq<NodeModel> {
    sort_forest_spec(insert_all_spec(keys, delims))
}

/// Builds the key-space tree from a flat key list and a delimiter set.
pub struct TreeBuilder {
    delimiters: Vec<char>,
}

impl TreeBuilder {
    /// The configured delimiter characters.
    pub closed spec fn delims(self) -> Seq<char> {
        self.delimiters@
    }

    /// A builder over a non-empty, ordered delimiter set.
    pub fn new(delimiters: Vec<char>) -> (r: Self)
        requires
            delimiters@.len() > 0,
        ensures
            r.delims() == delimiters@,
    {
        Self { delimiters }
    }

    /// Insert one key's segments, reusing the first sibling of each name.
    fn insert_parts(
        nodes: &mut Vec<TreeNode>,
        parts: &Vec<String>,
        p: usize,
        full_key: &str,
        kind: RedisType,
    )
        requires
            p < parts@.len(),
        ensures
            forest_model(final(nodes)@) == insert_parts_spec(
                forest_model(old(nodes)@),
                segs_model(parts@).skip(p as int),
                full_key@,
                kind,
            ),
        decreases parts@.len() - p,
    {
        let ghost fm = forest_model(nodes@);
        let ghost rem = segs_model(parts@).skip(p as int);
        proof {
            assert(rem[0] == parts@[p as int]@);
            lemma_find_named(fm, parts@[p as int]@);
        }
        let name: &String = &parts[p];
        // find the first sibling with this segment's name
        let n = nodes.len();
        let mut idx: usize = 0;
        let mut found: bool = false;
        while idx < n && !found
            invariant
                idx <= n,
                n == nodes@.len(),
                !found ==> forall|j: int| 0 <= j < idx ==> nodes@[j].name@ != name@,
                found ==> idx < n && nodes@[idx as int].name@ == name@ && forall|j: int|
                    0 <= j < idx ==> nodes@[j].name@ != name@,
            decreases n - idx + (if found { 0int } else { 1int }),
        {
            if nodes[idx].name == *name {
                found = true;
            } else {
                idx += 1;
            }
        }
        proof {
            let k = find_named(fm, name@);
            if found {
                assert(fm[idx as int] == node_model(nodes@[idx as int]));
                assert(fm[idx as int].name == name@);
                if k < idx as int {
                    assert(fm[k] == node_model(nodes@[k]));
                    assert(nodes@[k].name@ != name@);
                    assert(false);
                }
                if k > idx as int {
                    assert(fm[idx as int].name != name@);
                    assert(false);
                }
                assert(k == idx as int);
            } else {
                assert(idx == n);
                if k < fm.len() {
                    assert(fm[k] == node_model(nodes@[k]));
                    assert(nodes@[k].name@ != name@);
                    assert(false);
                }
                assert(k == fm.len());
            }
        }
        let np = parts.len();
        let last = p + 1 == np;
        proof {
            if !last {
                assert(rem.drop_first() =~= segs_model(parts@).skip(p + 1));
                assert(rem.len() > 1);
            } else {
                assert(rem.len() == 1);
            }
        }
        if last {
            if found {
                nodes[idx].full_key = Some(full_key.to_owned());
                nodes[idx].node_type = NodeType::Key(kind);
                proof {
                    let target = insert_parts_spec(fm, rem, full_key@, kind);
                    assert(target == fm.update(
                        idx as int,
                        NodeModel {
                            full_key: Some(full_key@),
                            node_type: NodeType::Key(kind),
                            ..fm[idx as int]
                        },
                    ));
                    assert(node_model(nodes@[idx as int]) =~= target[idx as int]);
                    assert(forest_model(nodes@) =~= target);
                }
            } else {
                nodes.push(TreeNode::new_key(name.clone(), full_key.to_owned(), kind));
                proof {
                    assert(forest_model(nodes@) =~= fm.push(key_model(name@, full_key@, kind)));
                }
            }
        } else {
            if found {
                let ghost oldnode = nodes@[idx as int];
                Self::insert_parts(&mut nodes[idx].children, parts, p + 1, full_key, kind);
                proof {
                    let target = insert_parts_spec(fm, rem, full_key@, kind);
                    assert(fm[idx as int].children == forest_model(oldnode.children@));
                    assert(node_model(nodes@[idx as int]) =~= target[idx as int]);
                    assert(forest_model(nodes@) =~= target);
                }
            } else {
                nodes.push(TreeNode::new_folder(name.clone()));
                let ghost mid = nodes@;
                proof {
                    assert(mid[idx as int].children@.len() == 0);
                    assert(forest_model(mid[idx as int].children@) =~= Seq::<NodeModel>::empty());
                }
                Self::insert_parts(&mut nodes[idx].children, parts, p + 1, full_key, kind);
                proof {
                    let target = insert_parts_spec(fm, rem, full_key@, kind);
                    assert(target == fm.push(
                        NodeModel {
                            children: insert_parts_spec(
                                Seq::empty(),
                                rem.drop_first(),
                                full_key@,
                                kind,
                            ),
                            ..folder_model(name@)
                        },
                    ));
                    assert(node_model(mid[idx as int]) == folder_model(name@));
                    assert(node_model(nodes@[idx as int]) =~= target[idx as int]);
                    assert(forest_model(nodes@) =~= target);
                }
            }
        }
    }

    /// Insert one key, splitting it on the configured delimiters. A key that
    /// yields no segments is dropped.
    fn insert_key(&self, nodes: &mut Vec<TreeNode>, key: &str, kind: RedisType)
        ensures
            forest_model(final(nodes)@) == insert_key_spec(
                forest_model(old(nodes)@),
                key@,
                kind,
                self.delims(),
            ),
    {
        let parts = split_key(key, &self.delimiters);
        if parts.len() == 0 {
            return ;
        }
        proof {
            assert(segs_model(parts@).skip(0) =~= segs_model(parts@));
        }
        Self::insert_parts(nodes, &parts, 0, key, kind);
    }

    /// Sort every sibling list, recursively: branch nodes (folders and
    /// hybrids) before pure leaves, then by name.
    fn sort_nodes(nodes: Vec<TreeNode>) -> (r: Vec<TreeNode>)
        ensures
            forest_model(r@) == sort_forest_spec(forest_model(nodes@)),
        decreases nodes,
    {
        let ghost fm = forest_model(nodes@);
        let ghost mapped = map_sort_children(fm);
        let total = nodes.len();
        let mut rest = nodes;
        let mut out: Vec<TreeNode> = Vec::new();
        let mut k: usize = 0;
        proof {
            assert(mapped.take(0) =~= Seq::<NodeModel>::empty());
            assert(forest_model(out@) =~= sort_siblings_spec(mapped.take(0)));
            assert(rest@ =~= nodes@.skip(0));
        }
        while rest.len() > 0
            invariant
                k <= total,
                total == nodes@.len(),
                fm == forest_model(nodes@),
                mapped == map_sort_children(fm),
                rest@ == nodes@.skip(k as int),
                forest_model(out@) == sort_siblings_spec(mapped.take(k as int)),
            decreases rest@.len(),
        {
            let x = rest.remove(0);
            proof {
                assert(x == nodes@.skip(k as int)[0]);
                assert(x == nodes@[k as int]);
                assert(rest@ =~= nodes@.skip(k as int + 1));
            }
            let TreeNode { name, full_key, node_type, children, expanded, loaded } = x;
            proof {
                assert(decreases_to!(nodes@ => nodes@[k as int]));
                assert(decreases_to!(x => children));
                assert(decreases_to!(nodes => children));
            }
            let children = Self::sort_nodes(children);
            let y = TreeNode { name, full_key, node_type, children, expanded, loaded };
            proof {
                assert(node_model(y) =~= sort_node_spec(node_model(x)));
                assert(mapped[k as int] == sort_node_spec(fm[k as int]));
                assert(mapped.take(k + 1).drop_last() =~= mapped.take(k as int));
                assert(mapped.take(k + 1).last() == mapped[k as int]);
            }
            insert_in_order(&mut out, y);
            k += 1;
        }
        proof {
            assert(nodes@.len() - k == rest@.len());
            assert(mapped.take(k as int) =~= mapped);
        }
        out
    }

    /// Build the sorted key-space tree from a flat key list.
    pub fn build(&self, keys: &[(String, RedisType)]) -> (r: Vec<TreeNode>)
        ensures
            forest_model(r@) == build_spec(keys_model(keys@), self.delims()),
            forest_sorted(forest_model(r@)),
    {
        proof {
            lemma_build_sorted(keys_model(keys@), self.delims());
        }
        let mut root: Vec<TreeNode> = Vec::new();
        let n = keys.len();
        let mut i: usize = 0;
        proof {
            assert(keys_model(keys@).take(0) =~= Seq::<(Seq<char>, RedisType)>::empty());
            assert(forest_model(root@) =~= insert_all_spec(
                keys_model(keys@).take(0),
                self.delims(),
            ));
        }
        while i < n
            invariant
                i <= n,
                n == keys@.len(),
                forest_model(root@) == insert_all_spec(keys_model(keys@).take(i as int), self.delims()),
            decreases n - i,
        {
            let ghost km = keys_model(keys@);
            proof {
                assert(km.take(i + 1).drop_last() =~= km.take(i as int));
                assert(km.take(i + 1).last() == km[i as int]);
            }
            let pair = &keys[i];
            let kind = pair.1;
            self.insert_key(&mut root, pair.0.as_str(), kind);
            i += 1;
        }
        proof {
            assert(keys_model(keys@).take(n as int) =~= keys_model(keys@));
        }
        Self::sort_nodes(root)
    }
}

} // verus!
