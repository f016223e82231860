//! Laws of the tree builder: determinism of the build and the sibling sort
//! invariant (branches before pure leaves, names strictly increasing within
//! each class, in every sibling list of the tree).

use vstd::prelude::*;

use crate::kinds::RedisType;
use crate::node_model::NodeModel;
use crate::node_model::insert_sorted_spec;
use crate::node_model::lemma_map_sort_children_index;
use crate::node_model::lemma_map_sort_children_len;
use crate::node_model::lex_le;
use crate::node_model::map_sort_children;
use crate::node_model::node_class;
use crate::node_model::node_le;
use crate::node_model::sort_forest_spec;
use crate::node_model::sort_node_spec;
use crate::node_model::sort_siblings_spec;
use crate::segments::split_segments;
use crate::tree::build_spec;
use crate::tree::find_named;
use crate::tree::insert_all_spec;
use crate::tree::insert_key_spec;
use crate::tree::insert_parts_spec;
use crate::tree::lemma_find_named;
use crate::tree::TreeNode;
use crate::node_model::forest_model;
use crate::node_model::key_model;

verus! {

broadcast use lemma_map_sort_children_len, lemma_map_sort_children_index;

/// Some sibling carries this name.
pub open spec fn has_name(s: Seq<NodeModel>, nm: Seq<char>) -> bool {
    exists|i: int| 0 <= i < s.len() && (#[trigger] s[i]).name == nm
}

/// No two siblings share a name.
pub open spec fn distinct_names(s: Seq<NodeModel>) -> bool {
    forall|i: int, j: int|
        0 <= i < j < s.len() ==> (#[trigger] s[i]).name != (#[trigger] s[j]).name
}

/// Names unique among siblings, in every sibling list of the forest.
pub open spec fn unique_names_rec(s: Seq<NodeModel>) -> bool
    decreases s,
{
    &&& distinct_names(s)
    &&& forall|i: int| 0 <= i < s.len() ==> unique_names_rec(#[trigger] s[i].children)
}

/// Strict lexicographic order on names.
pub open spec fn lex_lt(a: Seq<char>, b: Seq<char>) -> bool {
    lex_le(a, b) && a != b
}

/// One sibling list in sorted order: all branch nodes (folders and hybrids)
/// precede all pure leaves, and within each class names strictly increase.
pub open spec fn siblings_sorted(s: Seq<NodeModel>) -> bool {
    forall|i: int, j: int|
        0 <= i < j < s.len() ==> {
            &&& node_class(#[trigger] s[i]) <= node_class(#[trigger] s[j])
            &&& (node_class(s[i]) == node_class(s[j]) ==> lex_lt(s[i].name, s[j].name))
        }
}

/// The non-strict pairwise order that insertion sorting establishes.
pub open spec fn siblings_le_sorted(s: Seq<NodeModel>) -> bool {
    forall|i: int, j: int| 0 <= i < j < s.len() ==> node_le(#[trigger] s[i], #[trigger] s[j])
}

/// Every sibling list of the forest is in sorted order.
pub open spec fn forest_sorted(s: Seq<NodeModel>) -> bool
    decreases s,
{
    &&& siblings_sorted(s)
    &&& forall|i: int| 0 <= i < s.len() ==> forest_sorted(#[trigger] s[i].children)
}

proof fn lemma_lex_le_total(a: Seq<char>, b: Seq<char>)
    ensures
        lex_le(a, b) || lex_le(b, a),
    decreases a.len(),
{
    if a.len() == 0 || b.len() == 0 {
    } else if a[0] == b[0] {
        lemma_lex_le_total(a.drop_first(), b.drop_first());
    } else {
        vstd::utf8::char_u32_cast(a[0], a[0] as u32);
        vstd::utf8::char_u32_cast(b[0], b[0] as u32);
        assert(a[0] as u32 != b[0] as u32);
    }
}

proof fn lemma_lex_le_trans(a: Seq<char>, b: Seq<char>, c: Seq<char>)
    requires
        lex_le(a, b),
        lex_le(b, c),
    ensures
        lex_le(a, c),
    decreases a.len(),
{
    if a.len() == 0 || b.len() == 0 || c.len() == 0 {
    } else if a[0] == b[0] && b[0] == c[0] {
        lemma_lex_le_trans(a.drop_first(), b.drop_first(), c.drop_first());
    }
}

proof fn lemma_node_le_total(a: NodeModel, b: NodeModel)
    ensures
        node_le(a, b) || node_le(b, a),
{
    lemma_lex_le_total(a.name, b.name);
}

proof fn lemma_node_le_trans(a: NodeModel, b: NodeModel, c: NodeModel)
    requires
        node_le(a, b),
        node_le(b, c),
    ensures
        node_le(a, c),
{
    if node_class(a) == node_class(b) && node_class(b) == node_class(c) {
        lemma_lex_le_trans(a.name, b.name, c.name);
    }
}

proof fn lemma_lex_le_antisym(a: Seq<char>, b: Seq<char>)
    requires
        lex_le(a, b),
        lex_le(b, a),
    ensures
        a == b,
    decreases a.len(),
{
    if a.len() == 0 {
        assert(b.len() == 0);
        assert(a =~= b);
    } else if a[0] == b[0] {
        lemma_lex_le_antisym(a.drop_first(), b.drop_first());
        assert(a.drop_first() == b.drop_first());
        assert(a.len() == b.len());
        assert forall|i: int| 0 <= i < a.len() implies a[i] == b[i] by {
            if i > 0 {
                assert(a.drop_first()[i - 1] == a[i]);
                assert(b.drop_first()[i - 1] == b[i]);
            }
        }
        assert(a =~= b);
    } else {
        vstd::utf8::char_u32_cast(a[0], a[0] as u32);
        vstd::utf8::char_u32_cast(b[0], b[0] as u32);
        assert(false);
    }
}

/// Two nodes that order at or before each other share a name.
proof fn lemma_node_le_antisym_names(a: NodeModel, b: NodeModel)
    requires
        node_le(a, b),
        node_le(b, a),
    ensures
        a.name == b.name,
{
    lemma_lex_le_antisym(a.name, b.name);
}

/// Two insertions of differently-named nodes land in the same sorted list
/// in either order.
proof fn lemma_insert_sorted_commute(a: NodeModel, b: NodeModel, s: Seq<NodeModel>)
    requires
        a.name != b.name,
    ensures
        insert_sorted_spec(a, insert_sorted_spec(b, s)) == insert_sorted_spec(
            b,
            insert_sorted_spec(a, s),
        ),
    decreases s.len(),
{
    lemma_node_le_total(a, b);
    if node_le(a, b) && node_le(b, a) {
        lemma_node_le_antisym_names(a, b);
        assert(false);
    }
    if s.len() == 0 {
        assert(s =~= Seq::<NodeModel>::empty());
        assert(seq![a].drop_first() =~= Seq::<NodeModel>::empty());
        assert(seq![b].drop_first() =~= Seq::<NodeModel>::empty());
        assert(insert_sorted_spec(b, s) =~= seq![b]);
        assert(insert_sorted_spec(a, s) =~= seq![a]);
        assert(insert_sorted_spec(a, seq![b].drop_first()) == seq![a]);
        assert(insert_sorted_spec(b, seq![a].drop_first()) == seq![b]);
        if node_le(b, a) {
            assert(insert_sorted_spec(a, seq![b]) =~= seq![b, a]);
            assert(insert_sorted_spec(b, seq![a]) =~= seq![b, a]);
        } else {
            assert(insert_sorted_spec(a, seq![b]) =~= seq![a, b]);
            assert(insert_sorted_spec(b, seq![a]) =~= seq![a, b]);
        }
    } else {
        let h = s[0];
        let t = s.drop_first();
        if node_le(h, a) && node_le(h, b) {
            lemma_insert_sorted_commute(a, b, t);
            let ib = insert_sorted_spec(b, s);
            let ia = insert_sorted_spec(a, s);
            assert(ib == seq![h] + insert_sorted_spec(b, t));
            assert(ia == seq![h] + insert_sorted_spec(a, t));
            assert(ib[0] == h && ia[0] == h);
            assert(ib.drop_first() =~= insert_sorted_spec(b, t));
            assert(ia.drop_first() =~= insert_sorted_spec(a, t));
            assert(insert_sorted_spec(a, ib) == seq![h] + insert_sorted_spec(
                a,
                insert_sorted_spec(b, t),
            ));
            assert(insert_sorted_spec(b, ia) == seq![h] + insert_sorted_spec(
                b,
                insert_sorted_spec(a, t),
            ));
        } else if node_le(h, a) && !node_le(h, b) {
            lemma_node_le_total(h, b);
            // b orders before h, so before everything h orders before
            if node_le(a, b) {
                lemma_node_le_trans(h, a, b);
                assert(false);
            }
            let ia = insert_sorted_spec(a, s);
            assert(ia == seq![h] + insert_sorted_spec(a, t));
            assert(ia[0] == h);
            assert(insert_sorted_spec(b, s) == seq![b] + s);
            assert((seq![b] + s)[0] == b);
            assert((seq![b] + s).drop_first() =~= s);
            assert(insert_sorted_spec(a, seq![b] + s) == seq![b] + insert_sorted_spec(a, s));
            assert(insert_sorted_spec(b, ia) == seq![b] + ia);
            assert(seq![b] + insert_sorted_spec(a, s) == seq![b] + ia);
        } else if !node_le(h, a) && node_le(h, b) {
            lemma_node_le_total(h, a);
            if node_le(b, a) {
                lemma_node_le_trans(h, b, a);
                assert(false);
            }
            let ib = insert_sorted_spec(b, s);
            assert(ib == seq![h] + insert_sorted_spec(b, t));
            assert(ib[0] == h);
            assert(insert_sorted_spec(a, s) == seq![a] + s);
            assert((seq![a] + s)[0] == a);
            assert((seq![a] + s).drop_first() =~= s);
            assert(insert_sorted_spec(b, seq![a] + s) == seq![a] + insert_sorted_spec(b, s));
            assert(insert_sorted_spec(a, ib) == seq![a] + ib);
        } else {
            // both order before the head
            assert(insert_sorted_spec(a, s) == seq![a] + s);
            assert(insert_sorted_spec(b, s) == seq![b] + s);
            if node_le(a, b) {
                assert((seq![a] + s)[0] == a);
                assert((seq![a] + s).drop_first() =~= s);
                assert(insert_sorted_spec(b, seq![a] + s) == seq![a] + (seq![b] + s));
                assert(insert_sorted_spec(a, seq![b] + s) == seq![a] + (seq![b] + s));
            } else {
                assert(node_le(b, a));
                assert((seq![b] + s)[0] == b);
                assert((seq![b] + s).drop_first() =~= s);
                assert(insert_sorted_spec(a, seq![b] + s) == seq![b] + (seq![a] + s));
                assert(insert_sorted_spec(b, seq![a] + s) == seq![b] + (seq![a] + s));
            }
        }
    }
}

/// Sorting is insensitive to the order of the last two (differently named)
/// appended nodes.
proof fn lemma_sort_push_push(s: Seq<NodeModel>, x: NodeModel, y: NodeModel)
    requires
        x.name != y.name,
    ensures
        sort_siblings_spec(s.push(x).push(y)) == sort_siblings_spec(s.push(y).push(x)),
{
    assert(s.push(x).push(y).drop_last() =~= s.push(x));
    assert(s.push(y).push(x).drop_last() =~= s.push(y));
    assert(s.push(x).drop_last() =~= s);
    assert(s.push(y).drop_last() =~= s);
    assert(s.push(x).push(y).last() == y);
    assert(s.push(y).push(x).last() == x);
    assert(s.push(x).last() == x);
    assert(s.push(y).last() == y);
    assert(sort_siblings_spec(s.push(x)) == insert_sorted_spec(x, sort_siblings_spec(s)));
    assert(sort_siblings_spec(s.push(y)) == insert_sorted_spec(y, sort_siblings_spec(s)));
    assert(sort_siblings_spec(s.push(x).push(y)) == insert_sorted_spec(
        y,
        insert_sorted_spec(x, sort_siblings_spec(s)),
    ));
    assert(sort_siblings_spec(s.push(y).push(x)) == insert_sorted_spec(
        x,
        insert_sorted_spec(y, sort_siblings_spec(s)),
    ));
    lemma_insert_sorted_commute(y, x, sort_siblings_spec(s));
}

/// `find_named` depends only on the sibling names.
proof fn lemma_find_named_same_names(f1: Seq<NodeModel>, f2: Seq<NodeModel>, nm: Seq<char>)
    requires
        f1.len() == f2.len(),
        forall|j: int| 0 <= j < f1.len() ==> (#[trigger] f1[j]).name == f2[j].name,
    ensures
        find_named(f1, nm) == find_named(f2, nm),
    decreases f1.len(),
{
    if f1.len() > 0 && f1[0].name != nm {
        assert forall|j: int|
            0 <= j < f1.drop_first().len() implies (#[trigger] f1.drop_first()[j]).name
            == f2.drop_first()[j].name by {
            assert(f1.drop_first()[j] == f1[j + 1]);
            assert(f2.drop_first()[j] == f2[j + 1]);
        }
        lemma_find_named_same_names(f1.drop_first(), f2.drop_first(), nm);
    }
}

/// Looking a name up after appending one sibling.
proof fn lemma_find_named_push(f: Seq<NodeModel>, y: NodeModel, nm: Seq<char>)
    ensures
        find_named(f.push(y), nm) == (if find_named(f, nm) < f.len() {
            find_named(f, nm)
        } else if y.name == nm {
            f.len() as int
        } else {
            f.len() + 1int
        }),
    decreases f.len(),
{
    lemma_find_named(f, nm);
    if f.len() == 0 {
        assert(f.push(y)[0] == y);
        assert(f.push(y).drop_first() =~= Seq::<NodeModel>::empty());
        if y.name == nm {
            assert(find_named(f.push(y), nm) == 0);
        } else {
            assert(find_named(Seq::<NodeModel>::empty(), nm) == 0);
            assert(find_named(f.push(y), nm) == 1);
        }
        assert(!(find_named(f, nm) < f.len()));
    } else {
        assert(f.push(y)[0] == f[0]);
        assert(f.push(y).drop_first() =~= f.drop_first().push(y));
        if f[0].name != nm {
            lemma_find_named_push(f.drop_first(), y, nm);
            lemma_find_named(f.drop_first(), nm);
            let sub = find_named(f.drop_first(), nm);
            assert(find_named(f, nm) == 1 + sub);
            assert(find_named(f.push(y), nm) == 1 + find_named(f.drop_first().push(y), nm));
            if sub < f.drop_first().len() {
                assert(find_named(f.drop_first().push(y), nm) == sub);
            } else if y.name == nm {
                assert(find_named(f.drop_first().push(y), nm) == f.drop_first().len() as int);
            } else {
                assert(find_named(f.drop_first().push(y), nm) == f.drop_first().len() + 1int);
            }
        }
    }
}

/// Inserting into a non-strictly sorted list keeps it sorted.
proof fn lemma_insert_sorted_le(n: NodeModel, s: Seq<NodeModel>)
    requires
        siblings_le_sorted(s),
    ensures
        siblings_le_sorted(insert_sorted_spec(n, s)),
    decreases s.len(),
{
    let r = insert_sorted_spec(n, s);
    if s.len() == 0 {
    } else if node_le(s[0], n) {
        let t = s.drop_first();
        assert(siblings_le_sorted(t)) by {
            assert(forall|i: int, j: int|
                0 <= i < j < t.len() ==> t[i] == s[i + 1] && t[j] == s[j + 1]);
        }
        lemma_insert_sorted_le(n, t);
        let rec = insert_sorted_spec(n, t);
        lemma_insert_sorted_elems(n, t);
        assert forall|i: int, j: int| 0 <= i < j < r.len() implies node_le(
            #[trigger] r[i],
            #[trigger] r[j],
        ) by {
            if i == 0 {
                assert(r[j] == rec[j - 1]);
                assert(rec.contains(rec[j - 1]));
                if rec[j - 1] == n {
                    assert(node_le(s[0], r[j]));
                } else {
                    let k = choose|k: int| 0 <= k < t.len() && t[k] == rec[j - 1];
                    assert(t[k] == s[k + 1]);
                    assert(node_le(s[0], s[k + 1]));
                }
            } else {
                assert(r[i] == rec[i - 1] && r[j] == rec[j - 1]);
            }
        }
    } else {
        lemma_node_le_total(s[0], n);
        assert forall|i: int, j: int| 0 <= i < j < r.len() implies node_le(
            #[trigger] r[i],
            #[trigger] r[j],
        ) by {
            if i == 0 {
                assert(r[j] == s[j - 1]);
                if j == 1 {
                    assert(node_le(n, s[0]));
                } else {
                    lemma_node_le_trans(n, s[0], s[j - 1]);
                }
            } else {
                assert(r[i] == s[i - 1] && r[j] == s[j - 1]);
            }
        }
    }
}

/// Inserting adds exactly the new node; names stay distinct when the new
/// node's name was not present.
proof fn lemma_insert_sorted_elems(n: NodeModel, s: Seq<NodeModel>)
    ensures
        insert_sorted_spec(n, s).len() == s.len() + 1,
        forall|x: NodeModel|
            #[trigger] insert_sorted_spec(n, s).contains(x) <==> (x == n || s.contains(x)),
        (distinct_names(s) && !has_name(s, n.name)) ==> distinct_names(insert_sorted_spec(n, s)),
    decreases s.len(),
{
    let r = insert_sorted_spec(n, s);
    if s.len() == 0 {
        assert forall|x: NodeModel| #[trigger] r.contains(x) implies (x == n || s.contains(
            x,
        )) by {
            let k = choose|k: int| 0 <= k < r.len() && r[k] == x;
            assert(r[0] == n);
        }
        assert(r.contains(n)) by {
            assert(r[0] == n);
        }
    } else if node_le(s[0], n) {
        let t = s.drop_first();
        lemma_insert_sorted_elems(n, t);
        let rec = insert_sorted_spec(n, t);
        assert(forall|i: int, j: int| 0 <= i < j < t.len() ==> t[i] == s[i + 1] && t[j] == s[j + 1]);
        assert forall|x: NodeModel| #[trigger] r.contains(x) implies (x == n || s.contains(
            x,
        )) by {
            let k = choose|k: int| 0 <= k < r.len() && r[k] == x;
            if k == 0 {
                assert(s[0] == x);
            } else {
                assert(rec[k - 1] == x);
                assert(rec.contains(x));
                if x != n {
                    let m = choose|m: int| 0 <= m < t.len() && t[m] == x;
                    assert(s[m + 1] == x);
                }
            }
        }
        assert forall|x: NodeModel| (x == n || s.contains(x)) implies #[trigger] r.contains(
            x,
        ) by {
            if x == n {
                assert(rec.contains(n));
                let m = choose|m: int| 0 <= m < rec.len() && rec[m] == n;
                assert(r[m + 1] == n);
            } else {
                let k = choose|k: int| 0 <= k < s.len() && s[k] == x;
                if k == 0 {
                    assert(r[0] == x);
                } else {
                    assert(t[k - 1] == x);
                    assert(t.contains(x));
                    assert(rec.contains(x));
                    let m = choose|m: int| 0 <= m < rec.len() && rec[m] == x;
                    assert(r[m + 1] == x);
                }
            }
        }
        if distinct_names(s) && !has_name(s, n.name) {
            assert(distinct_names(t));
            assert(!has_name(t, n.name)) by {
                if has_name(t, n.name) {
                    let k = choose|k: int| 0 <= k < t.len() && t[k].name == n.name;
                    assert(s[k + 1].name == n.name);
                }
            }
            assert(distinct_names(rec));
            assert forall|i: int, j: int| 0 <= i < j < r.len() implies (#[trigger] r[i]).name != (
            #[trigger] r[j]).name by {
                if i == 0 {
                    assert(r[j] == rec[j - 1]);
                    assert(rec.contains(rec[j - 1]));
                    if rec[j - 1] == n {
                        assert(s[0].name != n.name);
                    } else {
                        let m = choose|m: int| 0 <= m < t.len() && t[m] == rec[j - 1];
                        assert(s[m + 1] == t[m]);
                        assert(s[0].name != s[m + 1].name);
                    }
                } else {
                    assert(r[i] == rec[i - 1] && r[j] == rec[j - 1]);
                }
            }
        }
    } else {
        assert forall|x: NodeModel| #[trigger] r.contains(x) implies (x == n || s.contains(
            x,
        )) by {
            let k = choose|k: int| 0 <= k < r.len() && r[k] == x;
            if k > 0 {
                assert(s[k - 1] == x);
            }
        }
        assert forall|x: NodeModel| (x == n || s.contains(x)) implies #[trigger] r.contains(
            x,
        ) by {
            if x == n {
                assert(r[0] == n);
            } else {
                let k = choose|k: int| 0 <= k < s.len() && s[k] == x;
                assert(r[k + 1] == x);
            }
        }
        if distinct_names(s) && !has_name(s, n.name) {
            assert forall|i: int, j: int| 0 <= i < j < r.len() implies (#[trigger] r[i]).name != (
            #[trigger] r[j]).name by {
                if i == 0 {
                    assert(r[j] == s[j - 1]);
                } else {
                    assert(r[i] == s[i - 1] && r[j] == s[j - 1]);
                }
            }
        }
    }
}

/// Insertion sort: sorted output, the same members, distinct names kept.
proof fn lemma_sort_siblings_props(s: Seq<NodeModel>)
    requires
        distinct_names(s),
    ensures
        sort_siblings_spec(s).len() == s.len(),
        siblings_le_sorted(sort_siblings_spec(s)),
        forall|x: NodeModel| #[trigger] sort_siblings_spec(s).contains(x) <==> s.contains(x),
        distinct_names(sort_siblings_spec(s)),
    decreases s.len(),
{
    let r = sort_siblings_spec(s);
    if s.len() == 0 {
        assert forall|x: NodeModel| #[trigger] r.contains(x) implies s.contains(x) by {
            let k = choose|k: int| 0 <= k < r.len() && r[k] == x;
        }
        assert forall|x: NodeModel| s.contains(x) implies #[trigger] r.contains(x) by {
            let k = choose|k: int| 0 <= k < s.len() && s[k] == x;
        }
    } else {
        let d = s.drop_last();
        let n = s.last();
        assert(distinct_names(d)) by {
            assert(forall|i: int| 0 <= i < d.len() ==> d[i] == s[i]);
        }
        lemma_sort_siblings_props(d);
        let t = sort_siblings_spec(d);
        assert(!has_name(t, n.name)) by {
            if has_name(t, n.name) {
                let k = choose|k: int| 0 <= k < t.len() && t[k].name == n.name;
                assert(t.contains(t[k]));
                assert(d.contains(t[k]));
                let m = choose|m: int| 0 <= m < d.len() && d[m] == t[k];
                assert(s[m] == d[m]);
                assert(s[m].name == s[s.len() - 1].name);
            }
        }
        lemma_insert_sorted_le(n, t);
        lemma_insert_sorted_elems(n, t);
        assert forall|x: NodeModel| #[trigger] r.contains(x) implies s.contains(x) by {
            if x == n {
                assert(s[s.len() - 1] == n);
            } else {
                assert(t.contains(x));
                assert(d.contains(x));
                let m = choose|m: int| 0 <= m < d.len() && d[m] == x;
                assert(s[m] == x);
            }
        }
        assert forall|x: NodeModel| s.contains(x) implies #[trigger] r.contains(x) by {
            let k = choose|k: int| 0 <= k < s.len() && s[k] == x;
            if k == s.len() - 1 {
                assert(x == n);
            } else {
                assert(d[k] == x);
                assert(d.contains(x));
                assert(t.contains(x));
            }
        }
    }
}

/// Sorting a forest whose names are unique yields a recursively sorted
/// forest with the same length and still-unique names.
proof fn lemma_sort_forest_props(s: Seq<NodeModel>)
    requires
        unique_names_rec(s),
    ensures
        sort_forest_spec(s).len() == s.len(),
        forest_sorted(sort_forest_spec(s)),
        unique_names_rec(sort_forest_spec(s)),
    decreases s,
{
    let mapped = map_sort_children(s);
    assert forall|i: int| 0 <= i < mapped.len() implies {
        &&& forest_sorted(#[trigger] mapped[i].children)
        &&& unique_names_rec(mapped[i].children)
        &&& mapped[i].name == s[i].name
    } by {
        assert(mapped[i] == sort_node_spec(s[i]));
        assert(unique_names_rec(s[i].children));
        lemma_sort_forest_props(s[i].children);
    }
    assert(distinct_names(mapped));
    lemma_sort_siblings_props(mapped);
    let r = sort_siblings_spec(mapped);
    assert forall|i: int, j: int| 0 <= i < j < r.len() implies {
        &&& node_class(#[trigger] r[i]) <= node_class(#[trigger] r[j])
        &&& (node_class(r[i]) == node_class(r[j]) ==> lex_lt(r[i].name, r[j].name))
    } by {
        assert(node_le(r[i], r[j]));
        assert(r[i].name != r[j].name);
    }
    assert forall|i: int| 0 <= i < r.len() implies forest_sorted(#[trigger] r[i].children)
        && unique_names_rec(r[i].children) by {
        assert(r.contains(r[i]));
        assert(mapped.contains(r[i]));
        let k = choose|k: int| 0 <= k < mapped.len() && mapped[k] == r[i];
    }
    assert(forest_sorted(r));
    assert(unique_names_rec(r));
}

/// The insert phase preserves recursively-unique names.
proof fn lemma_insert_parts_unique(
    forest: Seq<NodeModel>,
    parts: Seq<Seq<char>>,
    full_key: Seq<char>,
    kind: RedisType,
)
    requires
        unique_names_rec(forest),
    ensures
        unique_names_rec(insert_parts_spec(forest, parts, full_key, kind)),
    decreases parts.len(),
{
    let r = insert_parts_spec(forest, parts, full_key, kind);
    if parts.len() == 0 {
    } else {
        let name = parts[0];
        let idx = find_named(forest, name);
        lemma_find_named(forest, name);
        if parts.len() == 1 {
            if idx == forest.len() {
                assert forall|i: int, j: int| 0 <= i < j < r.len() implies (#[trigger] r[i]).name
                    != (#[trigger] r[j]).name by {
                    if j == forest.len() {
                        assert(r[i] == forest[i]);
                        assert(forest[i].name != name);
                    }
                }
                assert forall|i: int| 0 <= i < r.len() implies unique_names_rec(
                    #[trigger] r[i].children,
                ) by {
                    if i < forest.len() {
                        assert(r[i] == forest[i]);
                    } else {
                        assert(r[i].children =~= Seq::<NodeModel>::empty());
                        assert(unique_names_rec(Seq::<NodeModel>::empty()));
                    }
                }
            } else {
                assert forall|i: int| 0 <= i < r.len() implies unique_names_rec(
                    #[trigger] r[i].children,
                ) by {
                    if i != idx {
                        assert(r[i] == forest[i]);
                    } else {
                        assert(r[i].children == forest[idx].children);
                    }
                }
                assert(distinct_names(r)) by {
                    assert(forall|i: int| 0 <= i < r.len() ==> (#[trigger] r[i]).name
                        == forest[i].name);
                }
            }
        } else {
            if idx == forest.len() {
                lemma_insert_parts_unique(Seq::empty(), parts.drop_first(), full_key, kind);
                assert forall|i: int, j: int| 0 <= i < j < r.len() implies (#[trigger] r[i]).name
                    != (#[trigger] r[j]).name by {
                    if j == forest.len() {
                        assert(r[i] == forest[i]);
                        assert(forest[i].name != name);
                    }
                }
                assert forall|i: int| 0 <= i < r.len() implies unique_names_rec(
                    #[trigger] r[i].children,
                ) by {
                    if i < forest.len() {
                        assert(r[i] == forest[i]);
                    }
                }
            } else {
                lemma_insert_parts_unique(forest[idx].children, parts.drop_first(), full_key, kind);
                assert forall|i: int| 0 <= i < r.len() implies unique_names_rec(
                    #[trigger] r[i].children,
                ) by {
                    if i != idx {
                        assert(r[i] == forest[i]);
                    }
                }
                assert(distinct_names(r)) by {
                    assert(forall|i: int| 0 <= i < r.len() ==> (#[trigger] r[i]).name
                        == forest[i].name);
                }
            }
        }
    }
}

/// Inserting a whole key list into the empty forest keeps names unique.
proof fn lemma_insert_all_unique(keys: Seq<(Seq<char>, RedisType)>, delims: Seq<char>)
    ensures
        unique_names_rec(insert_all_spec(keys, delims)),
    decreases keys.len(),
{
    if keys.len() == 0 {
        assert(unique_names_rec(Seq::<NodeModel>::empty()));
    } else {
        lemma_insert_all_unique(keys.drop_last(), delims);
        let f = insert_all_spec(keys.drop_last(), delims);
        let parts = crate::segments::split_segments(keys.last().0, delims);
        if parts.len() > 0 {
            lemma_insert_parts_unique(f, parts, keys.last().0, keys.last().1);
        }
    }
}

/// The node one insertion leaves at (or appends after) the looked-up
/// position: an update keeps the sibling's name, an append carries the
/// head segment's name.
proof fn lemma_insert_parts_names(
    f: Seq<NodeModel>,
    p: Seq<Seq<char>>,
    k: Seq<char>,
    t: RedisType,
)
    requires
        p.len() > 0,
    ensures
        find_named(f, p[0]) < f.len() ==> {
            let r = insert_parts_spec(f, p, k, t);
            &&& r.len() == f.len()
            &&& forall|j: int| 0 <= j < f.len() ==> (#[trigger] r[j]).name == f[j].name
            &&& forall|j: int|
                0 <= j < f.len() && j != find_named(f, p[0]) ==> (#[trigger] r[j]) == f[j]
        },
        find_named(f, p[0]) == f.len() ==> {
            let r = insert_parts_spec(f, p, k, t);
            &&& r.len() == f.len() + 1
            &&& r[f.len() as int].name == p[0]
            &&& forall|j: int| 0 <= j < f.len() ==> (#[trigger] r[j]) == f[j]
        },
{
    lemma_find_named(f, p[0]);
}

/// Two insertions of keys on different segment paths yield the same sorted
/// tree in either order.
#[verifier::rlimit(100)]
proof fn lemma_double_insert_sort(
    f: Seq<NodeModel>,
    pa: Seq<Seq<char>>,
    ka: Seq<char>,
    ta: RedisType,
    pb: Seq<Seq<char>>,
    kb: Seq<char>,
    tb: RedisType,
)
    requires
        pa.len() > 0,
        pb.len() > 0,
        pa != pb,
    ensures
        sort_forest_spec(insert_parts_spec(insert_parts_spec(f, pa, ka, ta), pb, kb, tb))
            == sort_forest_spec(insert_parts_spec(insert_parts_spec(f, pb, kb, tb), pa, ka, ta)),
    decreases pa.len(),
{
    let n1 = pa[0];
    let n2 = pb[0];
    let fa = insert_parts_spec(f, pa, ka, ta);
    let fb = insert_parts_spec(f, pb, kb, tb);
    let r1 = insert_parts_spec(fa, pb, kb, tb);
    let r2 = insert_parts_spec(fb, pa, ka, ta);
    let i1 = find_named(f, n1);
    let i2 = find_named(f, n2);
    lemma_find_named(f, n1);
    lemma_find_named(f, n2);
    lemma_insert_parts_names(f, pa, ka, ta);
    lemma_insert_parts_names(f, pb, kb, tb);
    if n1 != n2 {
        if i1 < f.len() && i2 < f.len() {
            assert(i1 != i2);
            lemma_find_named_same_names(fa, f, n2);
            lemma_find_named_same_names(fb, f, n1);
            assert(fa[i2] == f[i2]);
            assert(fb[i1] == f[i1]);
            assert(r1 =~= r2);
        } else if i1 < f.len() && i2 == f.len() {
            lemma_find_named_same_names(fa, f, n2);
            assert(find_named(fa, n2) == fa.len());
            lemma_find_named_push(f, fb[f.len() as int], n1);
            assert(find_named(fb, n1) == i1) by {
                assert(fb =~= f.push(fb[f.len() as int]));
            }
            assert(fb[i1] == f[i1]);
            assert(r1 =~= r2);
        } else if i1 == f.len() && i2 < f.len() {
            lemma_find_named_same_names(fb, f, n1);
            assert(find_named(fb, n1) == fb.len());
            lemma_find_named_push(f, fa[f.len() as int], n2);
            assert(find_named(fa, n2) == i2) by {
                assert(fa =~= f.push(fa[f.len() as int]));
            }
            assert(fa[i2] == f[i2]);
            assert(r1 =~= r2);
        } else {
            // both names absent: the two new nodes are appended in either
            // order, and sorting forgets which came last
            let y1 = fa[f.len() as int];
            let y2 = fb[f.len() as int];
            assert(fa =~= f.push(y1));
            assert(fb =~= f.push(y2));
            lemma_find_named_push(f, y1, n2);
            lemma_find_named_push(f, y2, n1);
            assert(find_named(fa, n2) == f.len() + 1);
            assert(find_named(fb, n1) == f.len() + 1);
            assert(r1 =~= f.push(y1).push(y2)) by {
                assert(forall|j: int| 0 <= j < fa.len() ==> (#[trigger] r1[j]) == fa[j]);
            }
            assert(r2 =~= f.push(y2).push(y1)) by {
                assert(forall|j: int| 0 <= j < fb.len() ==> (#[trigger] r2[j]) == fb[j]);
            }
            let m = map_sort_children(f);
            assert(map_sort_children(r1) =~= m.push(sort_node_spec(y1)).push(sort_node_spec(y2)));
            assert(map_sort_children(r2) =~= m.push(sort_node_spec(y2)).push(sort_node_spec(y1)));
            assert(sort_node_spec(y1).name == n1);
            assert(sort_node_spec(y2).name == n2);
            lemma_sort_push_push(m, sort_node_spec(y1), sort_node_spec(y2));
        }
    } else {
        // same head segment: both insertions meet at one node
        let n = n1;
        let i = i1;
        let ra = pa.drop_first();
        let rb = pb.drop_first();
        if pa.len() == 1 && pb.len() == 1 {
            assert(pa =~= pb);
            assert(false);
        } else if pa.len() == 1 {
            // the shorter path sets the node's key, the longer grows its
            // children: the same node either way
            if i < f.len() {
                lemma_find_named_same_names(fa, f, n);
                lemma_find_named_same_names(fb, f, n);
                assert(r1 =~= r2);
            } else {
                let y1 = fa[f.len() as int];
                let y2 = fb[f.len() as int];
                assert(fa =~= f.push(y1));
                assert(fb =~= f.push(y2));
                lemma_find_named_push(f, y1, n);
                lemma_find_named_push(f, y2, n);
                assert(find_named(fa, n) == f.len());
                assert(find_named(fb, n) == f.len());
                assert(y1 == key_model(n, ka, ta));
                assert(y1.children =~= Seq::<NodeModel>::empty());
                assert(r1 =~= r2);
            }
        } else if pb.len() == 1 {
            if i < f.len() {
                lemma_find_named_same_names(fa, f, n);
                lemma_find_named_same_names(fb, f, n);
                assert(r1 =~= r2);
            } else {
                let y1 = fa[f.len() as int];
                let y2 = fb[f.len() as int];
                assert(fa =~= f.push(y1));
                assert(fb =~= f.push(y2));
                lemma_find_named_push(f, y1, n);
                lemma_find_named_push(f, y2, n);
                assert(find_named(fa, n) == f.len());
                assert(find_named(fb, n) == f.len());
                assert(y2 == key_model(n, kb, tb));
                assert(y2.children =~= Seq::<NodeModel>::empty());
                assert(r1 =~= r2);
            }
        } else {
            // both descend: the orders differ only inside this node's
            // children, where they commute up to sorting
            assert(ra != rb) by {
                if ra == rb {
                    assert(ra.len() == pa.len() - 1);
                    assert(rb.len() == pb.len() - 1);
                    assert(pa.len() == pb.len());
                    assert forall|m: int| 0 <= m < pa.len() implies pa[m] == pb[m] by {
                        if m > 0 {
                            assert(ra[m - 1] == pa[m]);
                            assert(rb[m - 1] == pb[m]);
                        }
                    }
                    assert(pa =~= pb);
                }
            }
            if i < f.len() {
                let c = f[i].children;
                lemma_find_named_same_names(fa, f, n);
                lemma_find_named_same_names(fb, f, n);
                let ch1 = insert_parts_spec(insert_parts_spec(c, ra, ka, ta), rb, kb, tb);
                let ch2 = insert_parts_spec(insert_parts_spec(c, rb, kb, tb), ra, ka, ta);
                assert(r1 =~= f.update(i, NodeModel { children: ch1, ..f[i] }));
                assert(r2 =~= f.update(i, NodeModel { children: ch2, ..f[i] }));
                lemma_double_insert_sort(c, ra, ka, ta, rb, kb, tb);
                assert(sort_node_spec(r1[i]) == sort_node_spec(r2[i]));
                assert(map_sort_children(r1) =~= map_sort_children(r2));
            } else {
                let y1 = fa[f.len() as int];
                let y2 = fb[f.len() as int];
                assert(fa =~= f.push(y1));
                assert(fb =~= f.push(y2));
                lemma_find_named_push(f, y1, n);
                lemma_find_named_push(f, y2, n);
                assert(find_named(fa, n) == f.len());
                assert(find_named(fb, n) == f.len());
                let ch1 = insert_parts_spec(
                    insert_parts_spec(Seq::empty(), ra, ka, ta),
                    rb,
                    kb,
                    tb,
                );
                let ch2 = insert_parts_spec(
                    insert_parts_spec(Seq::empty(), rb, kb, tb),
                    ra,
                    ka,
                    ta,
                );
                assert(y1.children == insert_parts_spec(Seq::empty(), ra, ka, ta));
                assert(y2.children == insert_parts_spec(Seq::empty(), rb, kb, tb));
                assert(r1 =~= f.push(NodeModel { children: ch1, ..y1 }));
                assert(r2 =~= f.push(NodeModel { children: ch2, ..y2 }));
                lemma_double_insert_sort(Seq::empty(), ra, ka, ta, rb, kb, tb);
                assert(sort_node_spec(r1[f.len() as int]) == sort_node_spec(r2[f.len() as int]));
                assert(map_sort_children(r1) =~= map_sort_children(r2));
            }
        }
    }
}

/// Law (sort invariant): in every sibling list of a built tree, all branch
/// nodes (folders and hybrids) precede all pure-leaf nodes, and within each
/// class names are strictly lexicographically increasing.
pub proof fn lemma_build_sorted(keys: Seq<(Seq<char>, RedisType)>, delims: Seq<char>)
    ensures
        forest_sorted(build_spec(keys, delims)),
{
    lemma_insert_all_unique(keys, delims);
    lemma_sort_forest_props(insert_all_spec(keys, delims));
}

/// Law (order independence, adjacent form): swapping the last two keys of
/// the list leaves the built tree unchanged, provided the two keys are
/// identical or split to different segment paths. (Two distinct keys on one
/// segment path merge last-write-wins, so their relative order must stay
/// significant.) Only this adjacent exchange is stated and proved here.
pub proof fn lemma_build_adjacent_keys_commute(
    keys: Seq<(Seq<char>, RedisType)>,
    a: (Seq<char>, RedisType),
    b: (Seq<char>, RedisType),
    delims: Seq<char>,
)
    requires
        a == b || split_segments(a.0, delims) != split_segments(b.0, delims),
    ensures
        build_spec(keys.push(a).push(b), delims) == build_spec(keys.push(b).push(a), delims),
{
    if a == b {
        assert(keys.push(a).push(b) =~= keys.push(b).push(a));
    } else {
        let f = insert_all_spec(keys, delims);
        assert(keys.push(a).push(b).drop_last() =~= keys.push(a));
        assert(keys.push(a).push(b).last() == b);
        assert(keys.push(a).drop_last() =~= keys);
        assert(keys.push(a).last() == a);
        assert(keys.push(b).push(a).drop_last() =~= keys.push(b));
        assert(keys.push(b).push(a).last() == a);
        assert(keys.push(b).drop_last() =~= keys);
        assert(keys.push(b).last() == b);
        assert(insert_all_spec(keys.push(a), delims) == insert_key_spec(f, a.0, a.1, delims));
        assert(insert_all_spec(keys.push(b), delims) == insert_key_spec(f, b.0, b.1, delims));
        assert(insert_all_spec(keys.push(a).push(b), delims) == insert_key_spec(
            insert_all_spec(keys.push(a), delims),
            b.0,
            b.1,
            delims,
        ));
        assert(insert_all_spec(keys.push(b).push(a), delims) == insert_key_spec(
            insert_all_spec(keys.push(b), delims),
            a.0,
            a.1,
            delims,
        ));
        assert(insert_all_spec(keys.push(a).push(b), delims) == insert_key_spec(
            insert_key_spec(f, a.0, a.1, delims),
            b.0,
            b.1,
            delims,
        ));
        assert(insert_all_spec(keys.push(b).push(a), delims) == insert_key_spec(
            insert_key_spec(f, b.0, b.1, delims),
            a.0,
            a.1,
            delims,
        ));
        let pa = split_segments(a.0, delims);
        let pb = split_segments(b.0, delims);
        if pa.len() == 0 {
            assert(insert_key_spec(f, a.0, a.1, delims) == f);
            assert(insert_key_spec(insert_key_spec(f, b.0, b.1, delims), a.0, a.1, delims)
                == insert_key_spec(f, b.0, b.1, delims));
        } else if pb.len() == 0 {
            assert(insert_key_spec(f, b.0, b.1, delims) == f);
            assert(insert_key_spec(insert_key_spec(f, a.0, a.1, delims), b.0, b.1, delims)
                == insert_key_spec(f, a.0, a.1, delims));
        } else {
            lemma_double_insert_sort(f, pa, a.0, a.1, pb, b.0, b.1);
        }
    }
}

/// Law (determinism): two trees built from the same key list and the same
/// delimiter set are structurally identical, node by node.
pub proof fn lemma_build_deterministic(
    r1: Seq<TreeNode>,
    r2: Seq<TreeNode>,
    keys: Seq<(Seq<char>, RedisType)>,
    delims: Seq<char>,
)
    requires
        forest_model(r1) == build_spec(keys, delims),
        forest_model(r2) == build_spec(keys, delims),
    ensures
        forest_model(r1) == forest_model(r2),
{
}

} // verus!
