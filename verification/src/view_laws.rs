//! Laws of the view projector: toggling touches exactly one node's expanded
//! flag, and expanding a folder inserts exactly its direct children's rows
//! immediately after its own row.

use vstd::prelude::*;

use crate::flatten::FlatModel;
use crate::flatten::flatten_from;
use crate::flatten::row_model;
use crate::flatten::toggle_spec;
use crate::node_model::NodeModel;

verus! {

/// The node a sibling-index path addresses, if any.
pub open spec fn node_at(forest: Seq<NodeModel>, path: Seq<usize>) -> Option<NodeModel>
    decreases path.len(),
{
    if path.len() == 0 {
        None
    } else {
        let i = path[0] as int;
        if i < forest.len() {
            if path.len() == 1 {
                Some(forest[i])
            } else {
                node_at(forest[i].children, path.drop_first())
            }
        } else {
            None
        }
    }
}

/// Every proper ancestor of the addressed node is expanded, so its row is
/// part of the flattened view.
pub open spec fn ancestors_expanded(forest: Seq<NodeModel>, path: Seq<usize>) -> bool
    decreases path.len(),
{
    if path.len() <= 1 {
        true
    } else {
        let i = path[0] as int;
        &&& i < forest.len()
        &&& forest[i].expanded
        &&& ancestors_expanded(forest[i].children, path.drop_first())
    }
}

/// Each direct child of the node currently shows no descendants of its own.
pub open spec fn children_shallow(n: NodeModel) -> bool {
    forall|k: int|
        0 <= k < n.children.len() ==> (!(#[trigger] n.children[k]).expanded
            || n.children[k].children.len() == 0)
}

/// The rows that a sibling list projects to when none of its nodes shows
/// descendants: one row per node, in sibling order.
pub open spec fn child_rows(cs: Seq<NodeModel>, base: Seq<usize>) -> Seq<FlatModel> {
    Seq::new(cs.len(), |k: int| row_model(cs[k], base, k as usize))
}

/// Law (toggle isolation): toggling the node at `p` flips exactly that
/// node's expanded flag; every other addressable node keeps its flag, name,
/// key and kind, and every path stays addressable.
pub proof fn lemma_toggle_isolation(forest: Seq<NodeModel>, p: Seq<usize>, q: Seq<usize>)
    requires
        node_at(forest, p) is Some,
        node_at(forest, q) is Some,
    ensures
        node_at(toggle_spec(forest, p), q) is Some,
        q == p ==> node_at(toggle_spec(forest, p), q)->0 == (NodeModel {
            expanded: !node_at(forest, p)->0.expanded,
            ..node_at(forest, p)->0
        }),
        q != p ==> {
            let before = node_at(forest, q)->0;
            let after = node_at(toggle_spec(forest, p), q)->0;
            &&& after.expanded == before.expanded
            &&& after.name == before.name
            &&& after.full_key == before.full_key
            &&& after.node_type == before.node_type
        },
    decreases p.len(),
{
    let f2 = toggle_spec(forest, p);
    let i = p[0] as int;
    let j = q[0] as int;
    if p.len() == 1 {
        if q.len() == 1 {
            if j == i {
                assert(q =~= p);
            } else {
                assert(f2[j] == forest[j]);
            }
        } else {
            if j == i {
                assert(f2[i].children == forest[i].children);
            } else {
                assert(f2[j] == forest[j]);
            }
        }
    } else {
        if q.len() == 1 {
            if j == i {
                assert(q.len() != p.len());
                assert(f2[i].expanded == forest[i].expanded);
            } else {
                assert(f2[j] == forest[j]);
            }
        } else {
            if j == i {
                lemma_toggle_isolation(forest[i].children, p.drop_first(), q.drop_first());
                assert(node_at(f2, q) == node_at(
                    toggle_spec(forest[i].children, p.drop_first()),
                    q.drop_first(),
                ));
                if q.drop_first() == p.drop_first() {
                    assert forall|m: int| 0 <= m < q.len() implies q[m] == p[m] by {
                        if m > 0 {
                            assert(q[m] == q.drop_first()[m - 1]);
                            assert(p[m] == p.drop_first()[m - 1]);
                        }
                    }
                    assert(q =~= p);
                } else {
                    assert(q != p);
                }
            } else {
                assert(f2[j] == forest[j]);
            }
        }
    }
}

/// Rows from index `j` on depend only on the siblings from `j` on.
proof fn lemma_flatten_congruence(f: Seq<NodeModel>, g: Seq<NodeModel>, pp: Seq<usize>, j: int)
    requires
        f.len() == g.len(),
        forall|m: int| j <= m < f.len() ==> f[m] == g[m],
    ensures
        flatten_from(f, pp, j) == flatten_from(g, pp, j),
    decreases f.len() - j,
{
    if 0 <= j < f.len() {
        lemma_flatten_congruence(f, g, pp, j + 1);
    }
}

/// The kid rows a node contributes right after its own row.
pub open spec fn kids_of(n: NodeModel, pp: Seq<usize>, i: int) -> Seq<FlatModel> {
    if n.expanded {
        flatten_from(n.children, pp.push(i as usize), 0)
    } else {
        Seq::empty()
    }
}

/// The flattened rows from `j` split around sibling `i`, and replacing that
/// one sibling changes only its own row and kid segment.
proof fn lemma_flatten_split(f: Seq<NodeModel>, pp: Seq<usize>, j: int, i: int) -> (ab: (
    Seq<FlatModel>,
    Seq<FlatModel>,
))
    requires
        0 <= j <= i < f.len(),
    ensures
        flatten_from(f, pp, j) == ab.0 + seq![row_model(f[i], pp, i as usize)] + kids_of(f[i], pp, i)
            + ab.1,
        forall|x: NodeModel|
            #[trigger] flatten_from(f.update(i, x), pp, j) == ab.0 + seq![
                row_model(x, pp, i as usize),
            ] + kids_of(x, pp, i) + ab.1,
    decreases i - j,
{
    if j == i {
        let b = flatten_from(f, pp, i + 1);
        let ab = (Seq::<FlatModel>::empty(), b);
        assert(flatten_from(f, pp, j) =~= ab.0 + seq![row_model(f[i], pp, i as usize)] + kids_of(
            f[i],
            pp,
            i,
        ) + ab.1);
        assert forall|x: NodeModel| #[trigger] flatten_from(f.update(i, x), pp, j) == ab.0 + seq![
            row_model(x, pp, i as usize),
        ] + kids_of(x, pp, i) + ab.1 by {
            let g = f.update(i, x);
            lemma_flatten_congruence(f, g, pp, i + 1);
            assert(flatten_from(g, pp, j) =~= ab.0 + seq![row_model(x, pp, i as usize)] + kids_of(
                x,
                pp,
                i,
            ) + ab.1);
        }
        ab
    } else {
        let rec = lemma_flatten_split(f, pp, j + 1, i);
        let ab = (seq![row_model(f[j], pp, j as usize)] + kids_of(f[j], pp, j) + rec.0, rec.1);
        assert(flatten_from(f, pp, j) =~= ab.0 + seq![row_model(f[i], pp, i as usize)] + kids_of(
            f[i],
            pp,
            i,
        ) + ab.1);
        assert forall|x: NodeModel| #[trigger] flatten_from(f.update(i, x), pp, j) == ab.0 + seq![
            row_model(x, pp, i as usize),
        ] + kids_of(x, pp, i) + ab.1 by {
            let g = f.update(i, x);
            assert(g[j] == f[j]);
            assert(flatten_from(g, pp, j) == seq![row_model(g[j], pp, j as usize)] + kids_of(
                g[j],
                pp,
                j,
            ) + flatten_from(g, pp, j + 1));
            assert(flatten_from(g, pp, j) =~= ab.0 + seq![row_model(x, pp, i as usize)] + kids_of(
                x,
                pp,
                i,
            ) + ab.1);
        }
        ab
    }
}

/// A sibling list whose nodes show no descendants flattens to one row per
/// node.
proof fn lemma_flatten_shallow(cs: Seq<NodeModel>, base: Seq<usize>, j: int)
    requires
        0 <= j <= cs.len(),
        forall|k: int|
            0 <= k < cs.len() ==> (!(#[trigger] cs[k]).expanded || cs[k].children.len() == 0),
    ensures
        flatten_from(cs, base, j) == child_rows(cs, base).skip(j),
    decreases cs.len() - j,
{
    if j == cs.len() {
        assert(flatten_from(cs, base, j) =~= child_rows(cs, base).skip(j));
    } else {
        lemma_flatten_shallow(cs, base, j + 1);
        assert(kids_of(cs[j], base, j) =~= Seq::<FlatModel>::empty()) by {
            if cs[j].expanded {
                assert(cs[j].children.len() == 0);
            }
        }
        assert(flatten_from(cs, base, j) == seq![row_model(cs[j], base, j as usize)] + kids_of(
            cs[j],
            base,
            j,
        ) + flatten_from(cs, base, j + 1));
        assert(child_rows(cs, base).skip(j) =~= seq![row_model(cs[j], base, j as usize)]
            + child_rows(cs, base).skip(j + 1));
        assert(flatten_from(cs, base, j) =~= child_rows(cs, base).skip(j));
    }
}

/// The length of a sibling list is not changed by a toggle.
proof fn lemma_toggle_len(forest: Seq<NodeModel>, p: Seq<usize>)
    ensures
        toggle_spec(forest, p).len() == forest.len(),
{
}

/// Law (flatten isolation): expanding one collapsed folder whose children
/// currently show no descendants, and re-flattening, inserts exactly that
/// folder's direct children as rows one level deeper, immediately after the
/// folder's row, in their sibling (sorted) order; every other row is
/// unchanged, before and after the insertion.
pub proof fn lemma_expand_inserts_children(
    forest: Seq<NodeModel>,
    pp: Seq<usize>,
    p: Seq<usize>,
) -> (ab: (Seq<FlatModel>, Seq<FlatModel>))
    requires
        node_at(forest, p) is Some,
        ancestors_expanded(forest, p),
        !node_at(forest, p)->0.expanded,
        children_shallow(node_at(forest, p)->0),
    ensures
        ({
            let n = node_at(forest, p)->0;
            &&& flatten_from(forest, pp, 0) == ab.0 + seq![
                row_model(n, pp + p.drop_last(), p.last()),
            ] + ab.1
            &&& flatten_from(toggle_spec(forest, p), pp, 0) == ab.0 + seq![
                row_model(NodeModel { expanded: true, ..n }, pp + p.drop_last(), p.last()),
            ] + child_rows(n.children, pp + p) + ab.1
        }),
    decreases p.len(),
{
    let n = node_at(forest, p)->0;
    let i = p[0] as int;
    if p.len() == 1 {
        assert(n == forest[i]);
        let ab = lemma_flatten_split(forest, pp, 0, i);
        assert(pp + p.drop_last() =~= pp);
        assert(p.last() == p[0]);
        assert(kids_of(n, pp, i) =~= Seq::<FlatModel>::empty());
        assert(flatten_from(forest, pp, 0) =~= ab.0 + seq![
            row_model(n, pp + p.drop_last(), p.last()),
        ] + ab.1);
        let n2 = NodeModel { expanded: !forest[i].expanded, ..forest[i] };
        assert(toggle_spec(forest, p) == forest.update(i, n2));
        assert(n2 == NodeModel { expanded: true, ..n });
        lemma_flatten_shallow(n.children, pp.push(p.last()), 0);
        assert(child_rows(n.children, pp.push(p.last())).skip(0) =~= child_rows(
            n.children,
            pp.push(p.last()),
        ));
        assert(pp.push(p.last()) =~= pp + p);
        assert(kids_of(n2, pp, i) == child_rows(n.children, pp + p));
        assert(flatten_from(toggle_spec(forest, p), pp, 0) =~= ab.0 + seq![
            row_model(NodeModel { expanded: true, ..n }, pp + p.drop_last(), p.last()),
        ] + child_rows(n.children, pp + p) + ab.1);
        ab
    } else {
        let tail = p.drop_first();
        assert(i < forest.len() && forest[i].expanded);
        assert(Some(n) == node_at(forest[i].children, tail));
        let split = lemma_flatten_split(forest, pp, 0, i);
        let rec = lemma_expand_inserts_children(forest[i].children, pp.push(p[0]), tail);
        let x = NodeModel {
            children: toggle_spec(forest[i].children, tail),
            ..forest[i]
        };
        assert(toggle_spec(forest, p) == forest.update(i, x));
        let ab = (split.0 + seq![row_model(forest[i], pp, p[0])] + rec.0, rec.1 + split.1);
        // path algebra: descending one level prepends the first index
        assert(pp.push(p[0]) + tail.drop_last() =~= pp + p.drop_last());
        assert(tail.last() == p.last());
        assert(pp.push(p[0]) + tail =~= pp + p);
        // the unchanged view around the folder's row
        assert(kids_of(forest[i], pp, i) == flatten_from(forest[i].children, pp.push(p[0]), 0));
        assert(flatten_from(forest, pp, 0) == split.0 + seq![row_model(forest[i], pp, p[0])]
            + kids_of(forest[i], pp, i) + split.1);
        assert(flatten_from(forest, pp, 0) =~= ab.0 + seq![
            row_model(n, pp + p.drop_last(), p.last()),
        ] + ab.1);
        // the expanded view
        lemma_toggle_len(forest[i].children, tail);
        assert(row_model(x, pp, p[0]) == row_model(forest[i], pp, p[0]));
        assert(kids_of(x, pp, i) == flatten_from(
            toggle_spec(forest[i].children, tail),
            pp.push(p[0]),
            0,
        ));
        assert(flatten_from(toggle_spec(forest, p), pp, 0) == split.0 + seq![
            row_model(x, pp, p[0]),
        ] + kids_of(x, pp, i) + split.1);
        assert(flatten_from(toggle_spec(forest, p), pp, 0) =~= ab.0 + seq![
            row_model(NodeModel { expanded: true, ..n }, pp + p.drop_last(), p.last()),
        ] + child_rows(n.children, pp + p) + ab.1);
        ab
    }
}

} // verus!
