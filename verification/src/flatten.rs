//! The view projector: flattens the tree and its expand/collapse state into
//! an ordered, addressable row sequence, and keeps the selected row index.

use vstd::prelude::*;

use crate::node_model::NodeModel;
use crate::node_model::forest_model;
use crate::node_model::lemma_forest_model_index;
use crate::node_model::lemma_forest_model_len;
use crate::node_model::node_model;
use crate::tree::TreeNode;

verus! {

broadcast use lemma_forest_model_len, lemma_forest_model_index;

/// One render-ready row: a denormalized snapshot of a visible tree node.
#[derive(Debug)]
pub struct FlatNode {
    /// Nesting level; roots have depth 0.
    pub depth: usize,
    /// Sibling-list indices from the root to this node. Valid until the tree
    /// is rebuilt; toggling expand/collapse does not invalidate it.
    pub node_index: Vec<usize>,
    pub name: String,
    pub is_folder: bool,
    pub expanded: bool,
    pub child_count: usize,
    pub full_key: Option<String>,
}

/// The mathematical image of a row.
#[verifier::ext_equal]
pub struct FlatModel {
    pub depth: nat,
    pub path: Seq<usize>,
    pub name: Seq<char>,
    pub is_folder: bool,
    pub expanded: bool,
    pub child_count: nat,
    pub full_key: Option<Seq<char>>,
}

/// The model of one row.
pub open spec fn flat_model(f: FlatNode) -> FlatModel {
    FlatModel {
        depth: f.depth as nat,
        path: f.node_index@,
        name: f.name@,
        is_folder: f.is_folder,
        expanded: f.expanded,
        child_count: f.child_count as nat,
        full_key: match f.full_key {
            Some(k) => Some(k@),
            None => None,
        },
    }
}

/// The models of a row list.
pub open spec fn rows_model(s: Seq<FlatNode>) -> Seq<FlatModel> {
    Seq::new(s.len(), |i: int| flat_model(s[i]))
}

/// The row that the node at sibling index `i` under parent path `ppath`
/// projects to.
pub open spec fn row_model(n: NodeModel, ppath: Seq<usize>, i: usize) -> FlatModel {
    FlatModel {
        depth: ppath.len(),
        path: ppath.push(i),
        name: n.name,
        is_folder: n.node_type is Folder,
        expanded: n.expanded,
        child_count: n.children.len(),
        full_key: n.full_key,
    }
}

/// Pre-order rows of the forest from sibling index `i` on, descending into a
/// node's children only when it is expanded.
pub open spec fn flatten_from(forest: Seq<NodeModel>, ppath: Seq<usize>, i: int) -> Seq<FlatModel>
    decreases forest, forest.len() - i,
{
    if i < 0 || i >= forest.len() {
        Seq::empty()
    } else {
        seq![row_model(forest[i], ppath, i as usize)] + (if forest[i].expanded {
            flatten_from(forest[i].children, ppath.push(i as usize), 0)
        } else {
            Seq::empty()
        }) + flatten_from(forest, ppath, i + 1)
    }
}

/// The full flattened view of the forest.
pub open spec fn flatten_spec(forest: Seq<NodeModel>) -> Seq<FlatModel> {
    flatten_from(forest, Seq::empty(), 0)
}

/// The selection after a re-flatten: none over an empty view, the first row
/// on first population, else the previous index clamped to the new length.
pub open spec fn selection_after(old_sel: Option<usize>, new_len: nat) -> Option<usize> {
    if new_len == 0 {
        None
    } else {
        match old_sel {
            None => Some(0usize),
            Some(i) => if i < new_len {
                Some(i)
            } else {
                Some((new_len - 1) as usize)
            },
        }
    }
}

/// A copy of a sibling-index path.
pub(crate) fn clone_path(path: &Vec<usize>) -> (r: Vec<usize>)
    ensures
        r@ == path@,
{
    let mut r: Vec<usize> = Vec::new();
    let n = path.len();
    let mut i: usize = 0;
    while i < n
        invariant
            i <= n,
            n == path@.len(),
            r@ == path@.take(i as int),
        decreases n - i,
    {
        r.push(path[i]);
        proof {
            assert(path@.take(i + 1) =~= path@.take(i as int).push(path@[i as int]));
        }
        i += 1;
    }
    proof {
        assert(path@.take(n as int) =~= path@);
    }
    r
}

/// A copy of an optional key string.
pub(crate) fn clone_opt_string(s: &Option<String>) -> (r: Option<String>)
    ensures
        (r is Some) == (s is Some),
        r is Some ==> r->0@ == s->0@,
{
    match s {
        Some(k) => Some(k.clone()),
        None => None,
    }
}

/// Append the rows of `nodes` (from sibling index 0 on) under parent path
/// `path` to `out`.
fn flatten_rec(nodes: &Vec<TreeNode>, path: &mut Vec<usize>, out: &mut Vec<FlatNode>)
    ensures
        final(path)@ == old(path)@,
        rows_model(final(out)@) == rows_model(old(out)@) + flatten_from(
            forest_model(nodes@),
            old(path)@,
            0,
        ),
    decreases nodes@,
{
    let ghost fm = forest_model(nodes@);
    let ghost p0 = old(path)@;
    let ghost out0 = rows_model(old(out)@);
    let n = nodes.len();
    let mut i: usize = 0;
    while i < n
        invariant
            i <= n,
            n == nodes@.len(),
            fm == forest_model(nodes@),
            p0 == path@,
            out0 + flatten_from(fm, p0, 0) == rows_model(out@) + flatten_from(fm, p0, i as int),
        decreases n - i,
    {
        let ghost rows_before = rows_model(out@);
        let node = &nodes[i];
        let d = path.len();
        path.push(i);
        let idx_copy = clone_path(path);
        let row = FlatNode {
            depth: d,
            node_index: idx_copy,
            name: node.name.clone(),
            is_folder: node.is_folder(),
            expanded: node.expanded,
            child_count: node.child_count(),
            full_key: clone_opt_string(&node.full_key),
        };
        proof {
            lemma_forest_model_index(nodes@, i as int);
            lemma_forest_model_len(nodes@[i as int].children@);
            assert(flat_model(row) =~= row_model(fm[i as int], p0, i));
        }
        out.push(row);
        proof {
            assert(rows_model(out@) =~= rows_before + seq![row_model(fm[i as int], p0, i)]);
        }
        if node.expanded {
            proof {
                assert(forest_model(node.children@) == fm[i as int].children);
            }
            flatten_rec(&node.children, path, out);
        }
        let _ = path.pop();
        proof {
            assert(path@ =~= p0);
            let kids = if fm[i as int].expanded {
                flatten_from(fm[i as int].children, p0.push(i), 0)
            } else {
                Seq::<FlatModel>::empty()
            };
            assert(rows_model(out@) =~= rows_before + (seq![row_model(fm[i as int], p0, i)]
                + kids));
            assert(flatten_from(fm, p0, i as int) == (seq![row_model(fm[i as int], p0, i)] + kids)
                + flatten_from(fm, p0, i + 1));
            assert(out0 + flatten_from(fm, p0, 0) =~= rows_model(out@) + flatten_from(
                fm,
                p0,
                i + 1,
            ));
        }
        i += 1;
    }
    proof {
        assert(flatten_from(fm, p0, n as int) =~= Seq::<FlatModel>::empty());
        assert(out0 + flatten_from(fm, p0, 0) =~= rows_model(out@));
        assert(rows_model(out@) =~= out0 + flatten_from(fm, p0, 0));
    }
}

/// The projector's state: the flattened rows and the selected row index.
pub struct TreeViewState {
    pub selected: Option<usize>,
    pub flattened: Vec<FlatNode>,
}

impl TreeViewState {
    /// An empty view with no selection.
    pub fn new() -> (r: Self)
        ensures
            r.selected is None,
            r.flattened@.len() == 0,
    {
        Self { selected: None, flattened: Vec::new() }
    }

    /// Rebuild the rows from the forest and clamp the selection: none over an
    /// empty view, the first row on first population, else the previous index
    /// clamped to the new length.
    pub fn flatten(&mut self, nodes: &Vec<TreeNode>)
        ensures
            rows_model(final(self).flattened@) == flatten_spec(forest_model(nodes@)),
            final(self).selected == selection_after(
                old(self).selected,
                flatten_spec(forest_model(nodes@)).len(),
            ),
    {
        let mut out: Vec<FlatNode> = Vec::new();
        let mut path: Vec<usize> = Vec::new();
        proof {
            assert(rows_model(out@) =~= Seq::<FlatModel>::empty());
        }
        flatten_rec(nodes, &mut path, &mut out);
        proof {
            assert(Seq::<FlatModel>::empty() + flatten_spec(forest_model(nodes@)) =~= flatten_spec(
                forest_model(nodes@),
            ));
        }
        let len = out.len();
        self.flattened = out;
        if len == 0 {
            self.selected = None;
        } else {
            self.selected = match self.selected {
                None => Some(0),
                Some(i) => if i < len {
                    Some(i)
                } else {
                    Some(len - 1)
                },
            };
        }
    }

    /// The full key of the selected row, if a row is selected and it is
    /// directly addressable.
    pub fn selected_key(&self) -> (r: Option<String>)
        ensures
            (r is Some) == (selected_key_of(self.selected, rows_model(self.flattened@)) is Some),
            r is Some ==> r->0@ == selected_key_of(
                self.selected,
                rows_model(self.flattened@),
            )->0,
    {
        match self.selected {
            None => None,
            Some(i) => if i < self.flattened.len() {
                clone_opt_string(&self.flattened[i].full_key)
            } else {
                None
            },
        }
    }
}

impl TreeViewState {
    /// Select the next row, staying on the last one; selects the first row
    /// when nothing was selected.
    pub fn select_next(&mut self)
        ensures
            final(self).flattened == old(self).flattened,
            final(self).selected == next_selection(old(self).selected, old(self).flattened@.len()),
    {
        let len = self.flattened.len();
        if len == 0 {
            self.selected = None;
        } else {
            self.selected = match self.selected {
                None => Some(0),
                Some(i) => if i < len - 1 {
                    Some(i + 1)
                } else {
                    Some(len - 1)
                },
            };
        }
    }

    /// Select the previous row, staying on the first one; selects the first
    /// row when nothing was selected.
    pub fn select_previous(&mut self)
        ensures
            final(self).flattened == old(self).flattened,
            final(self).selected == prev_selection(old(self).selected, old(self).flattened@.len()),
    {
        let len = self.flattened.len();
        if len == 0 {
            self.selected = None;
        } else {
            self.selected = match self.selected {
                None => Some(0),
                Some(i) => if i == 0 || i > len {
                    Some(0)
                } else if i > len - 1 {
                    Some(len - 1)
                } else {
                    Some(i - 1)
                },
            };
        }
    }

    /// Select the first row, if any.
    pub fn select_first(&mut self)
        ensures
            final(self).flattened == old(self).flattened,
            final(self).selected == (if old(self).flattened@.len() == 0 {
                Option::<usize>::None
            } else {
                Some(0usize)
            }),
    {
        if self.flattened.len() == 0 {
            self.selected = None;
        } else {
            self.selected = Some(0);
        }
    }

    /// Select the last row, if any.
    pub fn select_last(&mut self)
        ensures
            final(self).flattened == old(self).flattened,
            final(self).selected == (if old(self).flattened@.len() == 0 {
                Option::<usize>::None
            } else {
                Some((old(self).flattened@.len() - 1) as usize)
            }),
    {
        let len = self.flattened.len();
        if len == 0 {
            self.selected = None;
        } else {
            self.selected = Some(len - 1);
        }
    }
}

/// The selection after a step down: clamped to the last row.
pub open spec fn next_selection(sel: Option<usize>, len: nat) -> Option<usize> {
    if len == 0 {
        None
    } else {
        match sel {
            None => Some(0usize),
            Some(i) => if i < len - 1 {
                Some((i + 1) as usize)
            } else {
                Some((len - 1) as usize)
            },
        }
    }
}

/// The selection after a step up: clamped to the first row.
pub open spec fn prev_selection(sel: Option<usize>, len: nat) -> Option<usize> {
    if len == 0 {
        None
    } else {
        match sel {
            None => Some(0usize),
            Some(i) => if i == 0 || i > len {
                Some(0usize)
            } else if i > len - 1 {
                Some((len - 1) as usize)
            } else {
                Some((i - 1) as usize)
            },
        }
    }
}

/// The key the selection addresses: the selected row's full key, if any.
pub open spec fn selected_key_of(sel: Option<usize>, rows: Seq<FlatModel>) -> Option<Seq<char>> {
    match sel {
        None => None,
        Some(i) => if i < rows.len() {
            rows[i as int].full_key
        } else {
            None
        },
    }
}

/// Flip exactly the expanded flag of the node the path addresses; a path
/// that addresses no node leaves the forest unchanged.
pub open spec fn toggle_spec(forest: Seq<NodeModel>, path: Seq<usize>) -> Seq<NodeModel>
    decreases path.len(),
{
    if path.len() == 0 {
        forest
    } else {
        let i = path[0] as int;
        if i < forest.len() {
            if path.len() == 1 {
                forest.update(i, NodeModel { expanded: !forest[i].expanded, ..forest[i] })
            } else {
                forest.update(
                    i,
                    NodeModel {
                        children: toggle_spec(forest[i].children, path.drop_first()),
                        ..forest[i]
                    },
                )
            }
        } else {
            forest
        }
    }
}

fn toggle_rec(nodes: &mut Vec<TreeNode>, path: &Vec<usize>, p: usize)
    requires
        p <= path@.len(),
    ensures
        forest_model(final(nodes)@) == toggle_spec(forest_model(old(nodes)@), path@.skip(p as int)),
    decreases path@.len() - p,
{
    let ghost fm = forest_model(nodes@);
    let ghost rem = path@.skip(p as int);
    if p == path.len() {
        proof {
            assert(rem.len() == 0);
        }
        return ;
    }
    proof {
        assert(rem[0] == path@[p as int]);
        assert(rem.drop_first() =~= path@.skip(p + 1));
    }
    let i = path[p];
    if i < nodes.len() {
        if p + 1 == path.len() {
            let e = nodes[i].expanded;
            nodes[i].expanded = !e;
            proof {
                let target = toggle_spec(fm, rem);
                assert(node_model(nodes@[i as int]) =~= target[i as int]);
                assert(forest_model(nodes@) =~= target);
            }
        } else {
            let ghost oldnode = nodes@[i as int];
            toggle_rec(&mut nodes[i].children, path, p + 1);
            proof {
                let target = toggle_spec(fm, rem);
                assert(fm[i as int].children == forest_model(oldnode.children@));
                assert(node_model(nodes@[i as int]) =~= target[i as int]);
                assert(forest_model(nodes@) =~= target);
            }
        }
    }
}

/// Flip exactly one node's expanded flag, addressed by its sibling-index
/// path from the root.
pub fn toggle_node_at_path(nodes: &mut Vec<TreeNode>, path: &Vec<usize>)
    ensures
        forest_model(final(nodes)@) == toggle_spec(forest_model(old(nodes)@), path@),
{
    proof {
        assert(path@.skip(0) =~= path@);
    }
    toggle_rec(nodes, path, 0);
}

} // verus!
