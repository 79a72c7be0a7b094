use vstd::prelude::*;

use crate::entry::{Entry, FileType};
use crate::filtering::Filtering;

verus! {

/// One node of a directory-tree snapshot: a named member, its classification
/// and, when it is a directory, its children.
#[derive(Debug)]
pub struct Node {
    /// The member's name (one path component).
    pub name: String,
    /// The member's classification.
    pub kind: FileType,
    /// The member's children; meaningful only for a directory.
    pub children: Vec<Node>,
}

/// The names of sibling nodes are pairwise distinct.
pub open spec fn distinct_names(nodes: Seq<Node>) -> bool {
    forall|i: int, j: int|
        #![trigger nodes[i].name@, nodes[j].name@]
        0 <= i < j < nodes.len() ==> nodes[i].name@ != nodes[j].name@
}

/// The names of the nodes of a listing, in order.
pub open spec fn nodes_names(nodes: Seq<Node>) -> Seq<Seq<char>> {
    nodes.map_values(|n: Node| n.name@)
}

/// Well-formedness of one node: only a directory has children, and the
/// children form a well-formed forest.
pub open spec fn node_wf(n: Node) -> bool
    decreases n,
{
    &&& (n.kind != FileType::Dir ==> n.children@.len() == 0)
    &&& nodes_wf(n.children@)
}

/// Well-formedness of a forest: sibling names are distinct at every level
/// and every node is well-formed.
pub open spec fn nodes_wf(nodes: Seq<Node>) -> bool
    decreases nodes,
{
    &&& distinct_names(nodes)
    &&& (nodes.len() == 0 || (node_wf(nodes.first()) && nodes_wf(nodes.drop_first())))
}

/// Whether the member described by `e` (its path and classification) lies
/// strictly beneath a directory whose listing is `nodes` and whose own path
/// is `prefix`: it is one of the nodes, or lies beneath a directory node.
pub open spec fn tree_contains(
    prefix: Seq<Seq<char>>,
    nodes: Seq<Node>,
    e: (Seq<Seq<char>>, FileType),
) -> bool
    decreases nodes,
{
    if nodes.len() == 0 {
        false
    } else {
        let n = nodes.first();
        let p = prefix.push(n.name@);
        ||| e == (p, n.kind)
        ||| (n.kind == FileType::Dir && tree_contains(p, n.children@, e))
        ||| tree_contains(prefix, nodes.drop_first(), e)
    }
}

/// The depth-first traversal of one node: the node's own entry when the
/// verdict is `Continue`, followed by the traversal of its children when it
/// is a directory whose verdict is not `IgnoreDir`.
pub open spec fn walk_node_spec(
    prefix: Seq<Seq<char>>,
    n: Node,
    f: spec_fn(Seq<Seq<char>>, FileType) -> Filtering,
) -> Seq<(Seq<Seq<char>>, FileType)>
    decreases n,
{
    let p = prefix.push(n.name@);
    let own = if f(p, n.kind) == Filtering::Continue {
        seq![(p, n.kind)]
    } else {
        Seq::empty()
    };
    let rest = if n.kind == FileType::Dir && f(p, n.kind) != Filtering::IgnoreDir {
        walk_nodes_spec(p, n.children@, f)
    } else {
        Seq::empty()
    };
    own + rest
}

/// The depth-first traversal of a forest, node by node in listing order.
pub open spec fn walk_nodes_spec(
    prefix: Seq<Seq<char>>,
    nodes: Seq<Node>,
    f: spec_fn(Seq<Seq<char>>, FileType) -> Filtering,
) -> Seq<(Seq<Seq<char>>, FileType)>
    decreases nodes,
{
    if nodes.len() == 0 {
        Seq::empty()
    } else {
        walk_node_spec(prefix, nodes.first(), f) + walk_nodes_spec(prefix, nodes.drop_first(), f)
    }
}

/// The verdict function that keeps everything: the behaviour of a traversal
/// without a filtering participant.
pub open spec fn keep_all() -> spec_fn(Seq<Seq<char>>, FileType) -> Filtering {
    |p: Seq<Seq<char>>, k: FileType| Filtering::Continue
}

/// A filtering participant: a capability that resolves one discovered entry
/// to a verdict. The verdict is a function of the entry alone, stated by
/// `verdict_spec`, so a traversal's output is pinned down by it.
pub trait Filter {
    /// The verdict as a mathematical function of the entry's path and kind.
    spec fn verdict_spec(&self, path: Seq<Seq<char>>, kind: FileType) -> Filtering;

    /// Resolves the verdict for one discovered entry.
    fn verdict(&self, entry: &Entry) -> (v: Filtering)
        ensures
            v == self.verdict_spec(entry@.0, entry@.1),
    ;
}

/// The verdict function of a filter, for use in traversal specifications.
pub open spec fn verdict_fn<F: Filter>(f: &F) -> spec_fn(Seq<Seq<char>>, FileType) -> Filtering {
    |p: Seq<Seq<char>>, k: FileType| f.verdict_spec(p, k)
}

/// The filter that keeps every entry, equivalent to attaching none.
pub struct NoFilter;

impl Filter for NoFilter {
    open spec fn verdict_spec(&self, path: Seq<Seq<char>>, kind: FileType) -> Filtering {
        Filtering::Continue
    }

    fn verdict(&self, entry: &Entry) -> (v: Filtering) {
        Filtering::Continue
    }
}

/// The filter that suppresses directory entries themselves while still
/// descending into them: the traversal yields only non-directories.
pub struct IgnoreDirs;

impl Filter for IgnoreDirs {
    open spec fn verdict_spec(&self, path: Seq<Seq<char>>, kind: FileType) -> Filtering {
        if kind == FileType::Dir {
            Filtering::Ignore
        } else {
            Filtering::Continue
        }
    }

    fn verdict(&self, entry: &Entry) -> (v: Filtering) {
        if entry.file_type() == FileType::Dir {
            Filtering::Ignore
        } else {
            Filtering::Continue
        }
    }
}

/// The filter that prunes the subtree rooted at one path: that entry is not
/// yielded and, being a directory, is not descended into.
pub struct PruneAt {
    /// Path components, relative to the root, of the pruned member.
    pub path: Vec<String>,
}

impl Filter for PruneAt {
    open spec fn verdict_spec(&self, path: Seq<Seq<char>>, kind: FileType) -> Filtering {
        if path == self.path.deep_view() {
            Filtering::IgnoreDir
        } else {
            Filtering::Continue
        }
    }

    fn verdict(&self, entry: &Entry) -> (v: Filtering) {
        if path_eq(entry.path(), &self.path) {
            Filtering::IgnoreDir
        } else {
            Filtering::Continue
        }
    }
}

/// The views of a sequence of entries, in order.
pub open spec fn views(s: Seq<Entry>) -> Seq<(Seq<Seq<char>>, FileType)> {
    s.map_values(|e: Entry| e@)
}

/// Walking one more node of a listing appends that node's traversal.
pub(crate) proof fn lemma_walk_nodes_take_succ(
    prefix: Seq<Seq<char>>,
    nodes: Seq<Node>,
    f: spec_fn(Seq<Seq<char>>, FileType) -> Filtering,
    i: int,
)
    requires
        0 <= i < nodes.len(),
    ensures
        walk_nodes_spec(prefix, nodes.take(i + 1), f) == walk_nodes_spec(prefix, nodes.take(i), f)
            + walk_node_spec(prefix, nodes[i], f),
    decreases i,
{
    let d = nodes.drop_first();
    if i == 0 {
        assert(nodes.take(1).first() == nodes[0]);
        assert(nodes.take(1).drop_first() =~= Seq::<Node>::empty());
        assert(nodes.take(0) =~= Seq::<Node>::empty());
        assert(walk_nodes_spec(prefix, nodes.take(1), f) =~= walk_nodes_spec(
            prefix,
            nodes.take(0),
            f,
        ) + walk_node_spec(prefix, nodes[0], f));
    } else {
        lemma_walk_nodes_take_succ(prefix, d, f, i - 1);
        assert(nodes.take(i + 1).first() == nodes.first());
        assert(nodes.take(i + 1).drop_first() =~= d.take(i));
        assert(nodes.take(i).first() == nodes.first());
        assert(nodes.take(i).drop_first() =~= d.take(i - 1));
        assert(d[i - 1] == nodes[i]);
        assert(walk_node_spec(prefix, nodes.first(), f) + (walk_nodes_spec(prefix, d.take(i - 1), f)
            + walk_node_spec(prefix, nodes[i], f)) =~= (walk_node_spec(prefix, nodes.first(), f)
            + walk_nodes_spec(prefix, d.take(i - 1), f)) + walk_node_spec(prefix, nodes[i], f));
    }
}

/// Copies a path, component by component.
pub(crate) fn clone_path(a: &Vec<String>) -> (r: Vec<String>)
    ensures
        r.deep_view() == a.deep_view(),
{
    let mut r: Vec<String> = Vec::new();
    let mut i: usize = 0;
    while i < a.len()
        invariant
            i <= a@.len(),
            r@.len() == i,
            forall|j: int| 0 <= j < i ==> r.deep_view()[j] == a.deep_view()[j],
        decreases a.len() - i,
    {
        r.push(a[i].clone());
        i = i + 1;
    }
    proof {
        assert(r.deep_view() =~= a.deep_view());
    }
    r
}

/// Walks the members of one directory listing depth-first, appending the
/// yielded entries to `out`, exactly as the traversal specification says.
fn walk_into<F: Filter>(prefix: &Vec<String>, nodes: &Vec<Node>, f: &F, out: &mut Vec<Entry>)
    ensures
        views(final(out)@) == views(old(out)@) + walk_nodes_spec(
            prefix.deep_view(),
            nodes@,
            verdict_fn(f),
        ),
    decreases nodes@,
{
    let ghost pre = prefix.deep_view();
    let ghost vf = verdict_fn(f);
    let mut i: usize = 0;
    while i < nodes.len()
        invariant
            i <= nodes@.len(),
            pre == prefix.deep_view(),
            vf == verdict_fn(f),
            views(out@) == views(old(out)@) + walk_nodes_spec(pre, nodes@.take(i as int), vf),
        decreases nodes@.len() - i,
    {
        let n = &nodes[i];
        proof {
            assert(decreases_to!(nodes@ => nodes@[i as int]));
            assert(decreases_to!(nodes@[i as int] => nodes@[i as int].children@));
        }
        let mut p = clone_path(prefix);
        p.push(n.name.clone());
        proof {
            assert(p.deep_view() =~= pre.push(n.name@));
        }
        let p2 = clone_path(&p);
        let ghost ep = p.deep_view();
        let e = Entry::new(p, n.kind);
        let v = f.verdict(&e);
        let ghost out_before = views(out@);
        let descend = n.kind == FileType::Dir && v != Filtering::IgnoreDir;
        if v == Filtering::Continue {
            out.push(e);
            proof {
                assert(views(out@) =~= out_before.push((ep, n.kind)));
                assert(out_before.push((ep, n.kind)) =~= out_before + seq![(ep, n.kind)]);
            }
        }
        if descend {
            walk_into(&p2, &n.children, f, out);
        }
        proof {
            let own = if vf(ep, n.kind) == Filtering::Continue {
                seq![(ep, n.kind)]
            } else {
                Seq::<(Seq<Seq<char>>, FileType)>::empty()
            };
            let rest = if n.kind == FileType::Dir && vf(ep, n.kind) != Filtering::IgnoreDir {
                walk_nodes_spec(ep, n.children@, vf)
            } else {
                Seq::<(Seq<Seq<char>>, FileType)>::empty()
            };
            assert(walk_node_spec(pre, nodes@[i as int], vf) == own + rest);
            assert(views(out@) =~= out_before + own + rest);
            lemma_walk_nodes_take_succ(pre, nodes@, vf, i as int);
            assert(out_before + own + rest =~= views(old(out)@) + walk_nodes_spec(
                pre,
                nodes@.take(i as int + 1),
                vf,
            ));
        }
        i = i + 1;
    }
    proof {
        assert(nodes@.take(nodes@.len() as int) =~= nodes@);
    }
}

/// Walks a snapshot of a directory tree depth-first, threading the filter's
/// verdict through every discovered entry.
///
/// The root itself is never yielded; its children and their descendants are,
/// in depth-first pre-order, exactly as [`walk_nodes_spec`] states: an entry
/// is yielded when its verdict is `Continue`, and a directory is descended
/// into exactly when its verdict is not `IgnoreDir`.
pub fn walk_tree<F: Filter>(root: &Node, f: &F) -> (out: Vec<Entry>)
    ensures
        views(out@) == walk_nodes_spec(Seq::empty(), root.children@, verdict_fn(f)),
{
    let mut out: Vec<Entry> = Vec::new();
    let prefix: Vec<String> = Vec::new();
    proof {
        assert(prefix.deep_view() =~= Seq::<Seq<char>>::empty());
        assert(views(out@) =~= Seq::<(Seq<Seq<char>>, FileType)>::empty());
    }
    walk_into(&prefix, &root.children, f, &mut out);
    proof {
        assert(Seq::<(Seq<Seq<char>>, FileType)>::empty() + walk_nodes_spec(
            Seq::empty(),
            root.children@,
            verdict_fn(f),
        ) =~= walk_nodes_spec(Seq::empty(), root.children@, verdict_fn(f)));
    }
    out
}

/// Whether two paths have the same components.
fn path_eq(a: &Vec<String>, b: &Vec<String>) -> (r: bool)
    ensures
        r == (a.deep_view() == b.deep_view()),
{
    if a.len() != b.len() {
        proof {
            assert(a.deep_view().len() == a@.len());
            assert(b.deep_view().len() == b@.len());
        }
        return false;
    }
    let mut i: usize = 0;
    while i < a.len()
        invariant
            i <= a.len(),
            a@.len() == b@.len(),
            forall|j: int| 0 <= j < i ==> a.deep_view()[j] == b.deep_view()[j],
        decreases a.len() - i,
    {
        let same: bool = a[i] == b[i];
        if !same {
            proof {
                assert(a.deep_view()[i as int] == a@[i as int]@);
                assert(b.deep_view()[i as int] == b@[i as int]@);
            }
            return false;
        }
        proof {
            assert(a.deep_view()[i as int] == a@[i as int]@);
            assert(b.deep_view()[i as int] == b@[i as int]@);
        }
        i = i + 1;
    }
    proof {
        assert(a.deep_view() =~= b.deep_view());
    }
    true
}

} // verus!
