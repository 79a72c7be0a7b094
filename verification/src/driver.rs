//! A driver that runs the [`Walker`] state machine over an in-memory tree
//! snapshot, answering every action the way a filesystem driver would for
//! that snapshot, and a proof that what the machine yields is exactly what
//! the recursive traversal [`crate::tree::walk_tree`] yields.

use vstd::prelude::*;

use crate::engine::{Event, Outcome, Walker};
use crate::entry::Entry;
use crate::filtering::Filtering;
use crate::tree::{
    Filter, Node, clone_path, lemma_walk_nodes_take_succ, verdict_fn, views, walk_node_spec,
    walk_nodes_spec,
};

verus! {

/// A nonzero bound on the nesting depth of one node: itself plus its
/// deepest chain of children.
pub open spec fn node_height(n: Node) -> nat
    decreases n,
{
    1 + forest_height(n.children@)
}

/// A bound on the nesting depth of a forest: the largest of its nodes'.
pub open spec fn forest_height(nodes: Seq<Node>) -> nat
    decreases nodes,
{
    if nodes.len() == 0 {
        0
    } else {
        let h = node_height(nodes.first());
        let r = forest_height(nodes.drop_first());
        if h >= r {
            h
        } else {
            r
        }
    }
}

/// Each node of a forest is at most as deep as the forest's bound.
proof fn lemma_forest_height_bound(nodes: Seq<Node>, i: int)
    requires
        0 <= i < nodes.len(),
    ensures
        node_height(nodes[i]) <= forest_height(nodes),
    decreases nodes,
{
    if i > 0 {
        lemma_forest_height_bound(nodes.drop_first(), i - 1);
        assert(nodes.drop_first()[i - 1] == nodes[i]);
    }
}

/// Feeds one directory listing of the snapshot to the walker, member by
/// member, answering classification and filter queries from the snapshot,
/// and descending recursively where the walker decides to. The walker asked
/// to read when this is called, and is again asking to read — at the same
/// depth, with this listing exhausted but not yet reported — when it
/// returns; the entries yielded in between are exactly the traversal of the
/// listing.
fn drive_list<F: Filter>(
    w: Walker,
    depth: usize,
    prefix: &Vec<String>,
    nodes: &Vec<Node>,
    f: &F,
    out: &mut Vec<Entry>,
) -> (w2: Walker)
    requires
        w == (Walker::AwaitRead { depth }),
        depth >= 1,
        depth + forest_height(nodes@) <= usize::MAX,
    ensures
        w2 == (Walker::AwaitRead { depth }),
        views(final(out)@) == views(old(out)@) + walk_nodes_spec(
            prefix.deep_view(),
            nodes@,
            verdict_fn(f),
        ),
    decreases nodes@,
{
    let ghost pre = prefix.deep_view();
    let ghost vf = verdict_fn(f);
    let mut w = w;
    let mut i: usize = 0;
    while i < nodes.len()
        invariant
            w == (Walker::AwaitRead { depth }),
            depth >= 1,
            depth + forest_height(nodes@) <= usize::MAX,
            i <= nodes@.len(),
            pre == prefix.deep_view(),
            vf == verdict_fn(f),
            views(out@) == views(old(out)@) + walk_nodes_spec(pre, nodes@.take(i as int), vf),
        decreases nodes@.len() - i,
    {
        let n = &nodes[i];
        proof {
            assert(decreases_to!(nodes@ => nodes@[i as int]));
            assert(decreases_to!(nodes@[i as int] => nodes@[i as int].children@));
            lemma_forest_height_bound(nodes@, i as int);
        }
        let mut p = clone_path(prefix);
        p.push(n.name.clone());
        proof {
            assert(p.deep_view() =~= pre.push(n.name@));
        }
        let ghost ep = p.deep_view();
        let p2 = clone_path(&p);
        let p3 = clone_path(&p);
        let ghost out_before = views(out@);

        let (w1, _read) = w.step(Event::TopRead(Some(Ok(p))));
        let (w2, _classify) = w1.step(Event::Classified(Ok(n.kind)));
        let probe = Entry::new(p3, n.kind);
        let v = f.verdict(&probe);
        proof {
            assert(v == vf(ep, n.kind));
        }
        let (w3, o3) = w2.step(Event::Verdict(v));
        let descend = n.kind == crate::entry::FileType::Dir && v != Filtering::IgnoreDir;
        if descend {
            let (w4, o4) = w3.step(Event::SubdirOpened(Ok(())));
            let w5 = match o4 {
                Outcome::Item(e) => {
                    out.push(e);
                    proof {
                        assert(views(out@) =~= out_before.push((ep, n.kind)));
                    }
                    let (w5, _pull) = w4.step(Event::Pull);
                    w5
                },
                _ => w4,
            };
            let w6 = drive_list(w5, depth + 1, &p2, &n.children, f, out);
            let (w7, _up) = w6.step(Event::TopRead(None));
            w = w7;
        } else {
            w = match o3 {
                Outcome::Item(e) => {
                    out.push(e);
                    proof {
                        assert(views(out@) =~= out_before.push((ep, n.kind)));
                    }
                    let (w4, _pull) = w3.step(Event::Pull);
                    w4
                },
                _ => w3,
            };
        }
        proof {
            let own = if vf(ep, n.kind) == Filtering::Continue {
                seq![(ep, n.kind)]
            } else {
                Seq::<(Seq<Seq<char>>, crate::entry::FileType)>::empty()
            };
            let rest = if n.kind == crate::entry::FileType::Dir && vf(ep, n.kind)
                != Filtering::IgnoreDir {
                walk_nodes_spec(ep, n.children@, vf)
            } else {
                Seq::<(Seq<Seq<char>>, crate::entry::FileType)>::empty()
            };
            assert(walk_node_spec(pre, nodes@[i as int], vf) == own + rest);
            if own.len() == 1 {
                assert(out_before.push((ep, n.kind)) =~= out_before + seq![(ep, n.kind)]);
            }
            assert(views(out@) =~= out_before + own + rest);
            lemma_walk_nodes_take_succ(pre, nodes@, vf, i as int);
            assert(out_before + own + rest =~= views(old(out)@) + walk_nodes_spec(
                pre,
                nodes@.take(i as int + 1),
                vf,
            ));
        }
        i = i + 1;
    }
    proof {
        assert(nodes@.take(nodes@.len() as int) =~= nodes@);
    }
    w
}

/// Walks a snapshot of a directory tree by driving the walker state machine
/// through a complete session — open the root, read, classify, filter and
/// descend as it directs, until it finishes.
///
/// The entries the machine yields are exactly those of
/// [`crate::tree::walk_tree`] on the same snapshot and filter: the
/// step-by-step engine and the recursive traversal agree.
pub fn drive_tree<F: Filter>(root: &Node, f: &F) -> (out: Vec<Entry>)
    requires
        1 + forest_height(root.children@) <= usize::MAX,
    ensures
        views(out@) == walk_nodes_spec(Seq::empty(), root.children@, verdict_fn(f)),
{
    let w = Walker::new();
    let (w, _open) = w.step(Event::Pull);
    let (w, _read) = w.step(Event::RootOpened(Ok(())));
    let mut out: Vec<Entry> = Vec::new();
    let prefix: Vec<String> = Vec::new();
    proof {
        assert(prefix.deep_view() =~= Seq::<Seq<char>>::empty());
        assert(views(out@) =~= Seq::<(Seq<Seq<char>>, crate::entry::FileType)>::empty());
    }
    let w = drive_list(w, 1, &prefix, &root.children, f, &mut out);
    let (_done, fin) = w.step(Event::TopRead(None));
    proof {
        assert(fin is Finished);
        assert(Seq::<(Seq<Seq<char>>, crate::entry::FileType)>::empty() + walk_nodes_spec(
            Seq::empty(),
            root.children@,
            verdict_fn(f),
        ) =~= walk_nodes_spec(Seq::empty(), root.children@, verdict_fn(f)));
    }
    out
}

} // verus!
