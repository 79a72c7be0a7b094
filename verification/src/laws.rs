//! The laws of the traversal, proved against the specification functions of
//! [`crate::tree`]: completeness and uniqueness of an unfiltered walk, and
//! the exact effect of the three-way filtering protocol.

use vstd::prelude::*;

use crate::entry::FileType;
use crate::filtering::Filtering;
use crate::tree::{
    Node, distinct_names, keep_all, node_wf, nodes_names, nodes_wf, tree_contains, walk_node_spec,
    walk_nodes_spec,
};

verus! {

/// The paths of the walked entries, in order.
pub open spec fn paths_of(s: Seq<(Seq<Seq<char>>, FileType)>) -> Seq<Seq<Seq<char>>> {
    s.map_values(|e: (Seq<Seq<char>>, FileType)| e.0)
}

/// No ancestor of the member at `p`, strictly between the directory at
/// `pre` and the member itself, receives the verdict `IgnoreDir`.
pub open spec fn no_pruned_ancestor(
    f: spec_fn(Seq<Seq<char>>, FileType) -> Filtering,
    pre: Seq<Seq<char>>,
    p: Seq<Seq<char>>,
) -> bool {
    forall|j: int|
        pre.len() < j < p.len() ==> f(#[trigger] p.take(j), FileType::Dir) != Filtering::IgnoreDir
}

/// Membership in a concatenation is membership in either part.
proof fn lemma_concat_contains<T>(a: Seq<T>, b: Seq<T>, x: T)
    ensures
        (a + b).contains(x) <==> a.contains(x) || b.contains(x),
{
    if a.contains(x) {
        let i = choose|i: int| 0 <= i < a.len() && a[i] == x;
        assert((a + b)[i] == x);
    }
    if b.contains(x) {
        let i = choose|i: int| 0 <= i < b.len() && b[i] == x;
        assert((a + b)[a.len() + i] == x);
    }
    if (a + b).contains(x) {
        let i = choose|i: int| 0 <= i < (a + b).len() && (a + b)[i] == x;
        if i < a.len() {
            assert(a[i] == x);
        } else {
            assert(b[i - a.len()] == x);
        }
    }
}

/// A concatenation of two duplicate-free, disjoint sequences is
/// duplicate-free.
proof fn lemma_no_dup_concat<T>(a: Seq<T>, b: Seq<T>)
    requires
        a.no_duplicates(),
        b.no_duplicates(),
        a.disjoint(b),
    ensures
        (a + b).no_duplicates(),
{
    assert forall|i: int, j: int|
        0 <= i < (a + b).len() && 0 <= j < (a + b).len() && i != j implies (a + b)[i] != (a
        + b)[j] by {
        if i < a.len() && j < a.len() {
            assert((a + b)[i] == a[i] && (a + b)[j] == a[j]);
        } else if i >= a.len() && j >= a.len() {
            assert((a + b)[i] == b[i - a.len()] && (a + b)[j] == b[j - a.len()]);
        } else if i < a.len() {
            assert((a + b)[i] == a[i] && (a + b)[j] == b[j - a.len()]);
        } else {
            assert((a + b)[i] == b[i - a.len()] && (a + b)[j] == a[j]);
        }
    }
}

/// Every entry walked beneath node `n` lies strictly below `n`'s own path:
/// its path starts with `pre` followed by `n`'s name.
proof fn lemma_walk_node_shape(
    pre: Seq<Seq<char>>,
    n: Node,
    f: spec_fn(Seq<Seq<char>>, FileType) -> Filtering,
)
    ensures
        forall|e: (Seq<Seq<char>>, FileType)| #[trigger]
            walk_node_spec(pre, n, f).contains(e) ==> e.0.len() >= pre.len() + 1 && e.0.take(pre.len() + 1 as int) == pre.push(n.name@),
    decreases n,
{
    let p = pre.push(n.name@);
    let own: Seq<(Seq<Seq<char>>, FileType)> = if f(p, n.kind) == Filtering::Continue {
        seq![(p, n.kind)]
    } else {
        Seq::empty()
    };
    let rest: Seq<(Seq<Seq<char>>, FileType)> = if n.kind == FileType::Dir && f(p, n.kind)
        != Filtering::IgnoreDir {
        walk_nodes_spec(p, n.children@, f)
    } else {
        Seq::empty()
    };
    assert(walk_node_spec(pre, n, f) == own + rest);
    lemma_walk_nodes_shape(p, n.children@, f);
    assert forall|e: (Seq<Seq<char>>, FileType)|
        walk_node_spec(pre, n, f).contains(e) implies e.0.len() >= pre.len() + 1 && e.0.take(pre.len() + 1 as int) == pre.push(n.name@) by {
        lemma_concat_contains(own, rest, e);
        if own.contains(e) {
            assert(e == (p, n.kind));
            assert(e.0.take(pre.len() + 1 as int) =~= p);
        } else {
            assert(rest.contains(e));
            assert(e.0.take(p.len() as int) == p);
        }
    }
}

/// Every entry walked from a listing lies strictly below the listing's
/// directory, and its first own component is the name of one of the nodes.
proof fn lemma_walk_nodes_shape(
    pre: Seq<Seq<char>>,
    nodes: Seq<Node>,
    f: spec_fn(Seq<Seq<char>>, FileType) -> Filtering,
)
    ensures
        forall|e: (Seq<Seq<char>>, FileType)| #[trigger]
            walk_nodes_spec(pre, nodes, f).contains(e) ==> e.0.len() >= pre.len() + 1
                && e.0.take(pre.len() as int) == pre && nodes_names(nodes).contains(
                e.0[pre.len() as int],
            ),
    decreases nodes,
{
    if nodes.len() == 0 {
    } else {
        let n = nodes.first();
        let d = nodes.drop_first();
        let p = pre.push(n.name@);
        let head = walk_node_spec(pre, n, f);
        let tail = walk_nodes_spec(pre, d, f);
        assert(walk_nodes_spec(pre, nodes, f) == head + tail);
        lemma_walk_node_shape(pre, n, f);
        lemma_walk_nodes_shape(pre, d, f);
        assert forall|e: (Seq<Seq<char>>, FileType)|
            walk_nodes_spec(pre, nodes, f).contains(e) implies e.0.len() >= pre.len() + 1
            && e.0.take(pre.len() as int) == pre && nodes_names(nodes).contains(
            e.0[pre.len() as int],
        ) by {
            lemma_concat_contains(head, tail, e);
            if head.contains(e) {
                assert(e.0.take(pre.len() + 1 as int) == p);
                assert(e.0.take(pre.len() as int) =~= pre);
                assert(e.0[pre.len() as int] == e.0.take(pre.len() + 1 as int)[pre.len() as int]);
                assert(e.0[pre.len() as int] == n.name@);
                assert(nodes_names(nodes)[0] == n.name@);
                assert(nodes_names(nodes).contains(e.0[pre.len() as int]));
            } else {
                assert(tail.contains(e));
                let k = choose|k: int|
                    0 <= k < nodes_names(d).len() && nodes_names(d)[k] == e.0[pre.len() as int];
                assert(nodes_names(nodes)[k + 1] == nodes_names(d)[k]);
                assert(nodes_names(nodes).contains(e.0[pre.len() as int]));
            }
        }
    }
}

/// An unfiltered walk of a listing yields exactly the members strictly
/// beneath its directory.
proof fn lemma_walk_node_complete(pre: Seq<Seq<char>>, n: Node, e: (Seq<Seq<char>>, FileType))
    ensures
        walk_node_spec(pre, n, keep_all()).contains(e) <==> (e == (pre.push(n.name@), n.kind) || (
        n.kind == FileType::Dir && tree_contains(pre.push(n.name@), n.children@, e))),
    decreases n,
{
    let p = pre.push(n.name@);
    let ka = keep_all();
    let own: Seq<(Seq<Seq<char>>, FileType)> = seq![(p, n.kind)];
    let rest: Seq<(Seq<Seq<char>>, FileType)> = if n.kind == FileType::Dir {
        walk_nodes_spec(p, n.children@, ka)
    } else {
        Seq::empty()
    };
    assert(ka(p, n.kind) == Filtering::Continue);
    assert(walk_node_spec(pre, n, ka) == own + rest);
    lemma_concat_contains(own, rest, e);
    if own.contains(e) {
        assert(e == (p, n.kind));
    }
    if e == (p, n.kind) {
        assert(own[0] == e);
    }
    lemma_walk_nodes_complete(p, n.children@, e);
}

/// An unfiltered walk of a forest yields exactly the members strictly
/// beneath its directory.
proof fn lemma_walk_nodes_complete(
    pre: Seq<Seq<char>>,
    nodes: Seq<Node>,
    e: (Seq<Seq<char>>, FileType),
)
    ensures
        walk_nodes_spec(pre, nodes, keep_all()).contains(e) <==> tree_contains(pre, nodes, e),
    decreases nodes,
{
    if nodes.len() == 0 {
    } else {
        let n = nodes.first();
        let d = nodes.drop_first();
        let head = walk_node_spec(pre, n, keep_all());
        let tail = walk_nodes_spec(pre, d, keep_all());
        assert(walk_nodes_spec(pre, nodes, keep_all()) == head + tail);
        lemma_concat_contains(head, tail, e);
        lemma_walk_node_complete(pre, n, e);
        lemma_walk_nodes_complete(pre, d, e);
    }
}

/// Membership in a filtered walk of one node, characterised by the verdicts
/// alone: an entry is walked iff it is walked unfiltered, its own verdict is
/// `Continue`, and no ancestor directory strictly below `pre` is pruned.
proof fn lemma_walk_node_membership(
    pre: Seq<Seq<char>>,
    n: Node,
    f: spec_fn(Seq<Seq<char>>, FileType) -> Filtering,
    e: (Seq<Seq<char>>, FileType),
)
    requires
        node_wf(n),
    ensures
        walk_node_spec(pre, n, f).contains(e) <==> (walk_node_spec(pre, n, keep_all()).contains(e)
            && f(e.0, e.1) == Filtering::Continue && no_pruned_ancestor(f, pre, e.0)),
    decreases n,
{
    let p = pre.push(n.name@);
    let ka = keep_all();
    let own: Seq<(Seq<Seq<char>>, FileType)> = if f(p, n.kind) == Filtering::Continue {
        seq![(p, n.kind)]
    } else {
        Seq::empty()
    };
    let rest: Seq<(Seq<Seq<char>>, FileType)> = if n.kind == FileType::Dir && f(p, n.kind)
        != Filtering::IgnoreDir {
        walk_nodes_spec(p, n.children@, f)
    } else {
        Seq::empty()
    };
    let own_a: Seq<(Seq<Seq<char>>, FileType)> = seq![(p, n.kind)];
    let rest_a: Seq<(Seq<Seq<char>>, FileType)> = if n.kind == FileType::Dir {
        walk_nodes_spec(p, n.children@, ka)
    } else {
        Seq::empty()
    };
    assert(walk_node_spec(pre, n, f) == own + rest);
    assert(walk_node_spec(pre, n, ka) == own_a + rest_a);
    lemma_concat_contains(own, rest, e);
    lemma_concat_contains(own_a, rest_a, e);
    lemma_walk_nodes_membership(p, n.children@, f, e);
    lemma_walk_nodes_shape(p, n.children@, f);
    lemma_walk_nodes_shape(p, n.children@, ka);

    // The filtered walk implies the three conditions.
    if walk_node_spec(pre, n, f).contains(e) {
        if own.contains(e) {
            assert(e == (p, n.kind));
            assert(f(p, n.kind) == Filtering::Continue);
            assert(own_a[0] == e);
            assert(e.0.len() == pre.len() + 1);
            assert(no_pruned_ancestor(f, pre, e.0));
        } else {
            assert(rest.contains(e));
            assert(n.kind == FileType::Dir && f(p, n.kind) != Filtering::IgnoreDir);
            assert(walk_nodes_spec(p, n.children@, ka).contains(e));
            assert(e.0.len() >= p.len() + 1 && e.0.take(p.len() as int) == p);
            assert forall|j: int|
                pre.len() < j < e.0.len() implies f(e.0.take(j), FileType::Dir)
                != Filtering::IgnoreDir by {
                if j == p.len() {
                    assert(e.0.take(j) == p);
                } else {
                    assert(j > p.len());
                    assert(no_pruned_ancestor(f, p, e.0));
                    assert(f(e.0.take(j), FileType::Dir) != Filtering::IgnoreDir);
                }
            }
        }
    }
    // The three conditions imply the filtered walk.
    if walk_node_spec(pre, n, ka).contains(e) && f(e.0, e.1) == Filtering::Continue
        && no_pruned_ancestor(f, pre, e.0) {
        if own_a.contains(e) {
            assert(e == (p, n.kind));
            assert(f(p, n.kind) == Filtering::Continue);
            assert(own[0] == e);
        } else {
            assert(rest_a.contains(e));
            assert(n.kind == FileType::Dir);
            assert(e.0.len() >= p.len() + 1 && e.0.take(p.len() as int) == p);
            assert(pre.len() < p.len() < e.0.len());
            assert(f(e.0.take(p.len() as int), FileType::Dir) != Filtering::IgnoreDir);
            assert(f(p, n.kind) != Filtering::IgnoreDir);
            assert forall|j: int|
                p.len() < j < e.0.len() implies f(e.0.take(j), FileType::Dir)
                != Filtering::IgnoreDir by {
                assert(pre.len() < j < e.0.len());
            }
            assert(walk_nodes_spec(p, n.children@, f).contains(e));
            assert(rest.contains(e));
        }
    }
}

/// Membership in a filtered walk of a forest, characterised by the verdicts
/// alone.
proof fn lemma_walk_nodes_membership(
    pre: Seq<Seq<char>>,
    nodes: Seq<Node>,
    f: spec_fn(Seq<Seq<char>>, FileType) -> Filtering,
    e: (Seq<Seq<char>>, FileType),
)
    requires
        nodes_wf(nodes),
    ensures
        walk_nodes_spec(pre, nodes, f).contains(e) <==> (walk_nodes_spec(
            pre,
            nodes,
            keep_all(),
        ).contains(e) && f(e.0, e.1) == Filtering::Continue && no_pruned_ancestor(f, pre, e.0)),
    decreases nodes,
{
    if nodes.len() == 0 {
    } else {
        let n = nodes.first();
        let d = nodes.drop_first();
        let ka = keep_all();
        assert(walk_nodes_spec(pre, nodes, f) == walk_node_spec(pre, n, f) + walk_nodes_spec(
            pre,
            d,
            f,
        ));
        assert(walk_nodes_spec(pre, nodes, ka) == walk_node_spec(pre, n, ka) + walk_nodes_spec(
            pre,
            d,
            ka,
        ));
        lemma_concat_contains(walk_node_spec(pre, n, f), walk_nodes_spec(pre, d, f), e);
        lemma_concat_contains(walk_node_spec(pre, n, ka), walk_nodes_spec(pre, d, ka), e);
        lemma_walk_node_membership(pre, n, f, e);
        lemma_walk_nodes_membership(pre, d, f, e);
    }
}

/// The paths walked beneath one node are pairwise distinct.
proof fn lemma_walk_node_no_dup(
    pre: Seq<Seq<char>>,
    n: Node,
    f: spec_fn(Seq<Seq<char>>, FileType) -> Filtering,
)
    requires
        node_wf(n),
    ensures
        paths_of(walk_node_spec(pre, n, f)).no_duplicates(),
    decreases n,
{
    let p = pre.push(n.name@);
    let own: Seq<(Seq<Seq<char>>, FileType)> = if f(p, n.kind) == Filtering::Continue {
        seq![(p, n.kind)]
    } else {
        Seq::empty()
    };
    let rest: Seq<(Seq<Seq<char>>, FileType)> = if n.kind == FileType::Dir && f(p, n.kind)
        != Filtering::IgnoreDir {
        walk_nodes_spec(p, n.children@, f)
    } else {
        Seq::empty()
    };
    assert(walk_node_spec(pre, n, f) == own + rest);
    lemma_walk_nodes_no_dup(p, n.children@, f);
    lemma_walk_nodes_shape(p, n.children@, f);
    assert(paths_of(own + rest) =~= paths_of(own) + paths_of(rest));
    assert(paths_of(own).no_duplicates());
    assert(paths_of(rest).no_duplicates());
    assert forall|i: int, j: int|
        0 <= i < paths_of(own).len() && 0 <= j < paths_of(rest).len() implies paths_of(own)[i]
        != paths_of(rest)[j] by {
        assert(paths_of(own)[i] == p);
        let ej = rest[j];
        assert(rest.contains(ej));
        assert(ej.0.len() >= p.len() + 1);
        assert(paths_of(rest)[j] == ej.0);
    }
    lemma_no_dup_concat(paths_of(own), paths_of(rest));
}

/// The paths walked from one listing are pairwise distinct: each member is
/// yielded at most once.
proof fn lemma_walk_nodes_no_dup(
    pre: Seq<Seq<char>>,
    nodes: Seq<Node>,
    f: spec_fn(Seq<Seq<char>>, FileType) -> Filtering,
)
    requires
        nodes_wf(nodes),
    ensures
        paths_of(walk_nodes_spec(pre, nodes, f)).no_duplicates(),
    decreases nodes,
{
    if nodes.len() == 0 {
    } else {
        let n = nodes.first();
        let d = nodes.drop_first();
        let head = walk_node_spec(pre, n, f);
        let tail = walk_nodes_spec(pre, d, f);
        assert(walk_nodes_spec(pre, nodes, f) == head + tail);
        lemma_walk_node_no_dup(pre, n, f);
        lemma_walk_nodes_no_dup(pre, d, f);
        lemma_walk_node_shape(pre, n, f);
        lemma_walk_nodes_shape(pre, d, f);
        assert(paths_of(head + tail) =~= paths_of(head) + paths_of(tail));
        assert forall|i: int, j: int|
            0 <= i < paths_of(head).len() && 0 <= j < paths_of(tail).len() implies paths_of(
            head,
        )[i] != paths_of(tail)[j] by {
            let eh = head[i];
            let et = tail[j];
            assert(head.contains(eh));
            assert(tail.contains(et));
            assert(paths_of(head)[i] == eh.0);
            assert(paths_of(tail)[j] == et.0);
            assert(eh.0.take(pre.len() + 1 as int) == pre.push(n.name@));
            assert(eh.0[pre.len() as int] == eh.0.take(pre.len() + 1 as int)[pre.len() as int]);
            assert(eh.0[pre.len() as int] == n.name@);
            let k = choose|k: int|
                0 <= k < nodes_names(d).len() && nodes_names(d)[k] == et.0[pre.len() as int];
            assert(et.0[pre.len() as int] == d[k].name@);
            assert(d[k] == nodes[k + 1]);
            assert(distinct_names(nodes));
            assert(nodes[0].name@ != nodes[k + 1].name@);
            assert(eh.0[pre.len() as int] != et.0[pre.len() as int]);
        }
        lemma_no_dup_concat(paths_of(head), paths_of(tail));
    }
}

/// A traversal of an empty root directory yields nothing, whatever the
/// filter.
pub proof fn lemma_walk_empty_root(root: Node, f: spec_fn(Seq<Seq<char>>, FileType) -> Filtering)
    requires
        root.children@.len() == 0,
    ensures
        walk_nodes_spec(Seq::empty(), root.children@, f) == Seq::<(Seq<Seq<char>>, FileType)>::empty(),
{
}

/// An unfiltered traversal yields every member strictly beneath the root
/// exactly once, and never the root itself: an entry appears iff it lies in
/// the tree, no two yielded entries share a path, and every yielded path is
/// non-empty (the root's own, empty, relative path is never yielded).
pub proof fn lemma_unfiltered_walk_exactly_once(root: Node)
    requires
        nodes_wf(root.children@),
    ensures
        forall|e: (Seq<Seq<char>>, FileType)| #[trigger]
            walk_nodes_spec(Seq::empty(), root.children@, keep_all()).contains(e)
                <==> tree_contains(Seq::empty(), root.children@, e),
        walk_nodes_spec(Seq::empty(), root.children@, keep_all()).no_duplicates(),
        paths_of(walk_nodes_spec(Seq::empty(), root.children@, keep_all())).no_duplicates(),
        forall|e: (Seq<Seq<char>>, FileType)| #[trigger]
            walk_nodes_spec(Seq::empty(), root.children@, keep_all()).contains(e) ==> e.0.len()
                >= 1,
{
    let out = walk_nodes_spec(Seq::empty(), root.children@, keep_all());
    assert forall|e: (Seq<Seq<char>>, FileType)| #[trigger]
        out.contains(e) <==> tree_contains(Seq::empty(), root.children@, e) by {
        lemma_walk_nodes_complete(Seq::empty(), root.children@, e);
    }
    lemma_walk_nodes_no_dup(Seq::empty(), root.children@, keep_all());
    lemma_walk_nodes_shape(Seq::empty(), root.children@, keep_all());
    assert forall|i: int, j: int|
        0 <= i < out.len() && 0 <= j < out.len() && i != j implies out[i] != out[j] by {
        assert(paths_of(out)[i] == out[i].0);
        assert(paths_of(out)[j] == out[j].0);
    }
}

/// The filtering protocol, exactly: an entry is yielded iff it lies strictly
/// beneath the root, its own verdict is `Continue`, and no ancestor
/// directory between the root and the entry received `IgnoreDir`. In
/// particular a directory whose verdict is `Ignore` is itself absent while
/// its passing descendants are still yielded, and a directory whose verdict
/// is `IgnoreDir` disappears together with its whole subtree.
pub proof fn lemma_filtered_walk_membership(
    root: Node,
    f: spec_fn(Seq<Seq<char>>, FileType) -> Filtering,
    e: (Seq<Seq<char>>, FileType),
)
    requires
        nodes_wf(root.children@),
    ensures
        walk_nodes_spec(Seq::empty(), root.children@, f).contains(e) <==> (tree_contains(
            Seq::empty(),
            root.children@,
            e,
        ) && f(e.0, e.1) == Filtering::Continue && no_pruned_ancestor(f, Seq::empty(), e.0)),
{
    lemma_walk_nodes_membership(Seq::empty(), root.children@, f, e);
    lemma_walk_nodes_complete(Seq::empty(), root.children@, e);
}

/// An entry whose own verdict is not `Continue` — ignored or pruned — is
/// never yielded.
pub proof fn lemma_ignored_entry_absent(
    root: Node,
    f: spec_fn(Seq<Seq<char>>, FileType) -> Filtering,
    e: (Seq<Seq<char>>, FileType),
)
    requires
        nodes_wf(root.children@),
        f(e.0, e.1) != Filtering::Continue,
    ensures
        !walk_nodes_spec(Seq::empty(), root.children@, f).contains(e),
{
    lemma_walk_nodes_membership(Seq::empty(), root.children@, f, e);
}

/// Ignoring entries never prunes: a member of the tree whose own verdict is
/// `Continue` is yielded as long as none of its ancestor directories is
/// pruned — whatever verdicts (including `Ignore`) those ancestors receive.
pub proof fn lemma_ignore_still_descends(
    root: Node,
    f: spec_fn(Seq<Seq<char>>, FileType) -> Filtering,
    e: (Seq<Seq<char>>, FileType),
)
    requires
        nodes_wf(root.children@),
        tree_contains(Seq::empty(), root.children@, e),
        f(e.0, e.1) == Filtering::Continue,
        no_pruned_ancestor(f, Seq::empty(), e.0),
    ensures
        walk_nodes_spec(Seq::empty(), root.children@, f).contains(e),
{
    lemma_walk_nodes_membership(Seq::empty(), root.children@, f, e);
    lemma_walk_nodes_complete(Seq::empty(), root.children@, e);
}

/// Pruning removes a whole subtree: when the directory at `d` receives
/// `IgnoreDir`, neither that directory nor anything beneath it is yielded.
pub proof fn lemma_pruned_subtree_absent(
    root: Node,
    f: spec_fn(Seq<Seq<char>>, FileType) -> Filtering,
    d: Seq<Seq<char>>,
    e: (Seq<Seq<char>>, FileType),
)
    requires
        nodes_wf(root.children@),
        f(d, FileType::Dir) == Filtering::IgnoreDir,
        d.len() >= 1,
        (e.0 == d && e.1 == FileType::Dir) || (e.0.len() > d.len() && e.0.take(d.len() as int)
            == d),
    ensures
        !walk_nodes_spec(Seq::empty(), root.children@, f).contains(e),
{
    lemma_walk_nodes_membership(Seq::empty(), root.children@, f, e);
    if e.0 == d && e.1 == FileType::Dir {
        assert(f(e.0, e.1) != Filtering::Continue);
    } else {
        assert(0 < d.len() < e.0.len());
        assert(f(e.0.take(d.len() as int), FileType::Dir) == Filtering::IgnoreDir);
        assert(!no_pruned_ancestor(f, Seq::empty(), e.0));
    }
}

} // verus!
