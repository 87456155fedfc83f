//! The stored entries of a trie in the order of a depth-first walk, and
//! the facts that make such a listing a faithful, sorted copy of the map.

use vstd::prelude::*;
use crate::mpt::node::{MPTNode, decoded_path, has_prefix, suffix, opt_view, children_wf, lemma_children_wf};

verus! {

/// The (path, value) pairs below `node`, reached through `pre`, in the order
/// of a depth-first walk: a branch's own value first, then its children by
/// index.
pub open spec fn entries(node: MPTNode, pre: Seq<u8>) -> Seq<(Seq<u8>, Seq<u8>)>
    decreases node,
{
    match node {
        MPTNode::Empty => Seq::empty(),
        MPTNode::Leaf { path, value } => seq![(pre + decoded_path(path@), value@)],
        MPTNode::Extension { path, child } => entries(*child, pre + decoded_path(path@)),
        MPTNode::Branch { children, value } => own_entry(value, pre) + children_entries(children@, pre),
    }
}

/// A branch's own value, as a listing of at most one entry.
pub open spec fn own_entry(value: Option<Vec<u8>>, pre: Seq<u8>) -> Seq<(Seq<u8>, Seq<u8>)> {
    match value {
        Some(v) => seq![(pre, v@)],
        None => Seq::empty(),
    }
}

/// The entries below a list of children, the child at index `i` reached
/// through `pre` followed by `i`.
pub open spec fn children_entries(cs: Seq<Option<Box<MPTNode>>>, pre: Seq<u8>) -> Seq<(Seq<u8>, Seq<u8>)>
    decreases cs,
{
    if cs.len() == 0 {
        Seq::empty()
    } else {
        children_entries(cs.drop_last(), pre) + child_entries(cs.last(), pre.push((cs.len() - 1) as u8))
    }
}

/// The entries below an optional child.
pub open spec fn child_entries(c: Option<Box<MPTNode>>, pre: Seq<u8>) -> Seq<(Seq<u8>, Seq<u8>)>
    decreases c,
{
    match c {
        Some(n) => entries(*n, pre),
        None => Seq::empty(),
    }
}

/// `a` comes strictly before `b` in lexicographic order.
pub open spec fn path_lt(a: Seq<u8>, b: Seq<u8>) -> bool {
    exists|n: int|
        #![trigger a.subrange(0, n), b.subrange(0, n)]
        0 <= n <= a.len() && n <= b.len() && a.subrange(0, n) == b.subrange(0, n) && ((n == a.len() && n
            < b.len()) || (n < a.len() && n < b.len() && a[n] < b[n]))
}

/// The paths of a listing strictly increase.
pub open spec fn sorted_paths(es: Seq<(Seq<u8>, Seq<u8>)>) -> bool {
    forall|i: int, j: int| 0 <= i < j < es.len() ==> path_lt(#[trigger] es[i].0, #[trigger] es[j].0)
}

/// Every entry lies below `pre` and is what `node` stores under the rest of
/// its path.
pub open spec fn entries_sound(node: MPTNode, pre: Seq<u8>, es: Seq<(Seq<u8>, Seq<u8>)>) -> bool {
    forall|i: int|
        0 <= i < es.len() ==> has_prefix(#[trigger] es[i].0, pre) && node.lookup(suffix(es[i].0, pre.len() as int))
            == Some(es[i].1)
}

/// No path is before itself.
pub proof fn lemma_path_lt_irreflexive(a: Seq<u8>)
    ensures
        !path_lt(a, a),
{
}

/// No two paths are each before the other.
pub proof fn lemma_path_lt_asymmetric(a: Seq<u8>, b: Seq<u8>)
    requires
        path_lt(a, b),
    ensures
        !path_lt(b, a),
{
    let n1 = choose|n: int|
        #![trigger a.subrange(0, n), b.subrange(0, n)]
        0 <= n <= a.len() && n <= b.len() && a.subrange(0, n) == b.subrange(0, n) && ((n == a.len() && n < b.len())
            || (n < a.len() && n < b.len() && a[n] < b[n]));
    if path_lt(b, a) {
        let n2 = choose|n: int|
            #![trigger b.subrange(0, n), a.subrange(0, n)]
            0 <= n <= b.len() && n <= a.len() && b.subrange(0, n) == a.subrange(0, n) && ((n == b.len() && n
                < a.len()) || (n < b.len() && n < a.len() && b[n] < a[n]));
        if n1 < n2 {
            assert(a.subrange(0, n2)[n1] == a[n1]);
            assert(b.subrange(0, n2)[n1] == b[n1]);
        } else if n2 < n1 {
            assert(a.subrange(0, n1)[n2] == a[n2]);
            assert(b.subrange(0, n1)[n2] == b[n2]);
        }
    }
}

/// A path is before every path that it is a proper prefix of, and paths
/// that part at a position are ordered by their elements there.
proof fn lemma_path_lt_at(a: Seq<u8>, b: Seq<u8>, n: int)
    requires
        0 <= n <= a.len(),
        n <= b.len(),
        a.subrange(0, n) == b.subrange(0, n),
        (n == a.len() && n < b.len()) || (n < a.len() && n < b.len() && a[n] < b[n]),
    ensures
        path_lt(a, b),
{
}

/// Joining two sorted listings, each path of the first before each of the
/// second, gives a sorted listing.
proof fn lemma_sorted_concat(a: Seq<(Seq<u8>, Seq<u8>)>, b: Seq<(Seq<u8>, Seq<u8>)>)
    requires
        sorted_paths(a),
        sorted_paths(b),
        forall|i: int, j: int| 0 <= i < a.len() && 0 <= j < b.len() ==> path_lt(#[trigger] a[i].0, #[trigger] b[j].0),
    ensures
        sorted_paths(a + b),
{
    let c = a + b;
    assert forall|i: int, j: int| 0 <= i < j < c.len() implies path_lt(#[trigger] c[i].0, #[trigger] c[j].0) by {
        if j < a.len() {
            assert(c[i] == a[i] && c[j] == a[j]);
        } else if i >= a.len() {
            assert(c[i] == b[i - a.len()] && c[j] == b[j - a.len()]);
        } else {
            assert(c[i] == a[i] && c[j] == b[j - a.len()]);
        }
    }
}

/// The listing below a node is sound, sorted, and lies below `pre`.
pub proof fn lemma_entries(node: MPTNode, pre: Seq<u8>)
    requires
        node.wf(),
    ensures
        entries_sound(node, pre, entries(node, pre)),
        sorted_paths(entries(node, pre)),
    decreases node,
{
    let es = entries(node, pre);
    match node {
        MPTNode::Empty => {},
        MPTNode::Leaf { path, value } => {
            let p = pre + decoded_path(path@);
            assert(p.subrange(0, pre.len() as int) =~= pre);
            assert(suffix(p, pre.len() as int) =~= decoded_path(path@));
        },
        MPTNode::Extension { path, child } => {
            let d = decoded_path(path@);
            let pd = pre + d;
            lemma_entries(*child, pd);
            assert forall|i: int| 0 <= i < es.len() implies has_prefix(#[trigger] es[i].0, pre) && node.lookup(
                suffix(es[i].0, pre.len() as int),
            ) == Some(es[i].1) by {
                let e = es[i].0;
                assert(has_prefix(e, pd));
                assert(e.subrange(0, pre.len() as int) =~= pd.subrange(0, pre.len() as int));
                assert(pd.subrange(0, pre.len() as int) =~= pre);
                let r = suffix(e, pre.len() as int);
                assert(r.subrange(0, d.len() as int) =~= d) by {
                    assert forall|j: int| 0 <= j < d.len() implies r.subrange(0, d.len() as int)[j] == d[j] by {
                        assert(e.subrange(0, pd.len() as int)[pre.len() + j] == pd[pre.len() + j]);
                    }
                }
                assert(suffix(r, d.len() as int) =~= suffix(e, pd.len() as int));
            }
        },
        MPTNode::Branch { children, value } => {
            let own = own_entry(value, pre);
            let ch = children_entries(children@, pre);
            lemma_children_entries(children@, pre);
            assert forall|i: int| 0 <= i < es.len() implies has_prefix(#[trigger] es[i].0, pre) && node.lookup(
                suffix(es[i].0, pre.len() as int),
            ) == Some(es[i].1) by {
                if i < own.len() {
                    assert(es[i] == own[i]);
                    assert(pre.subrange(0, pre.len() as int) =~= pre);
                    assert(suffix(pre, pre.len() as int) =~= Seq::<u8>::empty());
                } else {
                    let e = ch[i - own.len()];
                    assert(es[i] == e);
                    let r = suffix(e.0, pre.len() as int);
                    assert(r.drop_first() =~= suffix(e.0, pre.len() as int + 1));
                    assert(r[0] == e.0[pre.len() as int]);
                }
            }
            assert forall|i: int, j: int| 0 <= i < own.len() && 0 <= j < ch.len() implies path_lt(
                #[trigger] own[i].0,
                #[trigger] ch[j].0,
            ) by {
                assert(ch[j].0.subrange(0, pre.len() as int) == pre);
                assert(own[i].0 == pre);
                assert(pre.subrange(0, pre.len() as int) =~= pre);
                lemma_path_lt_at(own[i].0, ch[j].0, pre.len() as int);
            }
            lemma_sorted_concat(own, ch);
        },
    }
}

/// The listing below a list of children: each entry continues `pre` with
/// the index of the child it comes from, is what that child stores under
/// the rest of its path, and the listing is sorted.
pub proof fn lemma_children_entries(cs: Seq<Option<Box<MPTNode>>>, pre: Seq<u8>)
    requires
        children_wf(cs),
        cs.len() <= 16,
    ensures
        sorted_paths(children_entries(cs, pre)),
        forall|i: int|
            0 <= i < children_entries(cs, pre).len() ==> {
                let e = #[trigger] children_entries(cs, pre)[i];
                &&& e.0.len() > pre.len()
                &&& has_prefix(e.0, pre)
                &&& e.0[pre.len() as int] < cs.len()
                &&& cs[e.0[pre.len() as int] as int] is Some
                &&& cs[e.0[pre.len() as int] as int]->0.lookup(suffix(e.0, pre.len() as int + 1)) == Some(e.1)
            },
    decreases cs,
{
    if cs.len() > 0 {
        let init = cs.drop_last();
        let m = cs.len() - 1;
        let pm = pre.push(m as u8);
        lemma_children_entries(init, pre);
        lemma_children_wf(cs, m);
        assert(children_wf(init));
        let a = children_entries(init, pre);
        let b = child_entries(cs.last(), pm);
        match cs.last() {
            Some(c) => {
                lemma_entries(*c, pm);
            },
            None => {},
        }
        assert(sorted_paths(b));
        assert forall|i: int, j: int| 0 <= i < a.len() && 0 <= j < b.len() implies path_lt(
            #[trigger] a[i].0,
            #[trigger] b[j].0,
        ) by {
            let x = a[i].0;
            let y = b[j].0;
            assert(has_prefix(y, pm));
            assert(y.subrange(0, pre.len() as int) =~= pm.subrange(0, pre.len() as int));
            assert(pm.subrange(0, pre.len() as int) =~= pre);
            assert(y[pre.len() as int] == y.subrange(0, pm.len() as int)[pre.len() as int]);
            lemma_path_lt_at(x, y, pre.len() as int);
        }
        lemma_sorted_concat(a, b);
        let es = children_entries(cs, pre);
        assert forall|i: int| 0 <= i < es.len() implies {
            let e = #[trigger] es[i];
            &&& e.0.len() > pre.len()
            &&& has_prefix(e.0, pre)
            &&& e.0[pre.len() as int] < cs.len()
            &&& cs[e.0[pre.len() as int] as int] is Some
            &&& cs[e.0[pre.len() as int] as int]->0.lookup(suffix(e.0, pre.len() as int + 1)) == Some(e.1)
        } by {
            if i < a.len() {
                assert(es[i] == a[i]);
                let n = a[i].0[pre.len() as int];
                assert(init[n as int] == cs[n as int]);
            } else {
                let e = b[i - a.len()];
                assert(es[i] == e);
                let c = cs.last()->0;
                assert(has_prefix(e.0, pm));
                assert(e.0.subrange(0, pre.len() as int) =~= pm.subrange(0, pre.len() as int));
                assert(pm.subrange(0, pre.len() as int) =~= pre);
                assert(e.0[pre.len() as int] == e.0.subrange(0, pm.len() as int)[pre.len() as int]);
            }
        }
    }
}

/// Whatever a node stores under `q` appears in its listing under `pre + q`.
pub proof fn lemma_entries_complete(node: MPTNode, pre: Seq<u8>, q: Seq<u8>)
    requires
        node.wf(),
        node.lookup(q) is Some,
    ensures
        exists|i: int| 0 <= i < entries(node, pre).len() && #[trigger] entries(node, pre)[i] == (pre + q, node.lookup(q)->0),
    decreases node,
{
    let es = entries(node, pre);
    match node {
        MPTNode::Empty => {},
        MPTNode::Leaf { path, value } => {
            assert(es[0] == (pre + q, node.lookup(q)->0));
        },
        MPTNode::Extension { path, child } => {
            let d = decoded_path(path@);
            let r = suffix(q, d.len() as int);
            lemma_entries_complete(*child, pre + d, r);
            assert(q =~= q.subrange(0, d.len() as int) + r);
            assert((pre + d) + r =~= pre + q);
        },
        MPTNode::Branch { children, value } => {
            let own = own_entry(value, pre);
            if q.len() == 0 {
                assert(pre + q =~= pre);
                assert(es[0] == own[0]);
            } else {
                let n = q[0];
                let r = q.drop_first();
                lemma_children_wf(children@, n as int);
                lemma_children_entries_complete(children@, pre, n as int, r);
                let ch = children_entries(children@, pre);
                let i = choose|i: int| 0 <= i < ch.len() && #[trigger] ch[i] == (pre.push(n) + r, children@[n as int]->0.lookup(r)->0);
                assert(pre.push(n) + r =~= pre + q);
                assert(es[own.len() + i] == ch[i]);
            }
        },
    }
}

/// Whatever the child at `n` stores under `r` appears in the listing of the
/// children under `pre`, then `n`, then `r`.
pub proof fn lemma_children_entries_complete(cs: Seq<Option<Box<MPTNode>>>, pre: Seq<u8>, n: int, r: Seq<u8>)
    requires
        children_wf(cs),
        cs.len() <= 16,
        0 <= n < cs.len(),
        cs[n] is Some,
        cs[n]->0.lookup(r) is Some,
    ensures
        exists|i: int|
            0 <= i < children_entries(cs, pre).len() && #[trigger] children_entries(cs, pre)[i] == (pre.push(
                n as u8,
            ) + r, cs[n]->0.lookup(r)->0),
    decreases cs,
{
    let init = cs.drop_last();
    let m = cs.len() - 1;
    let a = children_entries(init, pre);
    let es = children_entries(cs, pre);
    if n < m {
        assert(init[n] == cs[n]);
        lemma_children_wf(cs, m);
        lemma_children_entries_complete(init, pre, n, r);
        let i = choose|i: int| 0 <= i < a.len() && #[trigger] a[i] == (pre.push(n as u8) + r, cs[n]->0.lookup(r)->0);
        assert(es[i] == a[i]);
    } else {
        lemma_children_wf(cs, n);
        lemma_entries_complete(*cs[n]->0, pre.push(m as u8), r);
        let b = entries(*cs[n]->0, pre.push(m as u8));
        let i = choose|i: int| 0 <= i < b.len() && #[trigger] b[i] == (pre.push(m as u8) + r, cs[n]->0.lookup(r)->0);
        assert(cs.last() == cs[n]);
        assert(child_entries(cs[n], pre.push(m as u8)) == b);
        assert(es == a + b);
        assert(es[a.len() + i] == b[i]);
    }
}

} // verus!
