//! Paths through the state graph: walks along transitions, and the depth-first search that
//! finds one to a target.
use crate::edges::Transition;
use crate::graph::out_slots;
use mapgraph::map::slotmap::NodeIndex;
use vstd::prelude::*;

verus! {

/// Source and destination slot of each transition.
pub open spec fn links(trs: Seq<Transition>) -> Seq<(usize, usize)> {
    trs.map_values(|t: Transition| (t.from, t.to))
}

/// Where following `path` from `origin` leads, or `None` if some step does not start where
/// the previous one ended.
pub open spec fn walk_end(links: Seq<(usize, usize)>, origin: int, path: Seq<usize>) -> Option<int>
    decreases path.len(),
{
    if path.len() == 0 {
        Some(origin)
    } else {
        match walk_end(links, origin, path.drop_last()) {
            Some(at) => {
                let e = path.last() as int;
                if 0 <= e < links.len() && links[e].0 as int == at {
                    Some(links[e].1 as int)
                } else {
                    None
                }
            },
            None => None,
        }
    }
}

/// The node a search stands on: the origin, or the end of the last edge taken.
pub open spec fn stack_top(links: Seq<(usize, usize)>, origin: int, stack: Seq<usize>) -> int {
    if stack.len() == 0 {
        origin
    } else {
        links[stack.last() as int].1 as int
    }
}

/// How many nodes are not yet visited.
pub open spec fn unvisited(visited: Seq<bool>) -> nat
    decreases visited.len(),
{
    if visited.len() == 0 {
        0
    } else {
        unvisited(visited.drop_last()) + if visited.last() { 0nat } else { 1nat }
    }
}

/// The first of `outs` whose destination is not yet visited.
pub open spec fn first_fresh(outs: Seq<usize>, links: Seq<(usize, usize)>, visited: Seq<bool>) -> Option<usize>
    decreases outs.len(),
{
    if outs.len() == 0 {
        None
    } else {
        let t = outs[0];
        if (t as int) < links.len() && (links[t as int].1 as int) < visited.len()
            && !visited[links[t as int].1 as int] {
            Some(t)
        } else {
            first_fresh(outs.drop_first(), links, visited)
        }
    }
}

/// Depth-first search from the top of `stack` for `target`: take the first out-edge, in the
/// graph's enumeration order, to an unvisited node; back up one edge when there is none. The
/// result is the edge stack at the moment an edge into `target` is pushed, or `None` once
/// the search has backed up past the origin.
pub open spec fn dfs_search(
    edges: Seq<(NodeIndex, NodeIndex, usize)>,
    keys: Seq<NodeIndex>,
    links: Seq<(usize, usize)>,
    origin: int,
    target: int,
    stack: Seq<usize>,
    visited: Seq<bool>,
) -> Option<Seq<usize>>
    decreases 2 * unvisited(visited) + stack.len(),
{
    let node = stack_top(links, origin, stack);
    if !(0 <= node < keys.len()) {
        None
    } else {
        match first_fresh(out_slots(edges, keys[node]), links, visited) {
            Some(t) => {
                let to = links[t as int].1 as int;
                if to == target {
                    Some(stack.push(t))
                } else {
                    proof {
                        lemma_first_fresh(out_slots(edges, keys[node]), links, visited);
                        lemma_unvisited_mark(visited, to);
                    }
                    dfs_search(edges, keys, links, origin, target, stack.push(t), visited.update(to, true))
                }
            },
            None => {
                if stack.len() == 0 {
                    None
                } else {
                    dfs_search(edges, keys, links, origin, target, stack.drop_last(), visited)
                }
            },
        }
    }
}

/// Following a walk's first edge leaves the rest of the walk, ending where it did.
pub proof fn lemma_walk_first(links: Seq<(usize, usize)>, origin: int, path: Seq<usize>)
    requires
        path.len() > 0,
        walk_end(links, origin, path) is Some,
    ensures
        0 <= path[0] < links.len(),
        links[path[0] as int].0 as int == origin,
        walk_end(links, links[path[0] as int].1 as int, path.drop_first()) == walk_end(links, origin, path),
    decreases path.len(),
{
    if path.len() == 1 {
        assert(path.drop_last() =~= Seq::<usize>::empty());
        assert(path.drop_first() =~= Seq::<usize>::empty());
    } else {
        lemma_walk_first(links, origin, path.drop_last());
        assert(path.drop_last().drop_first() =~= path.drop_first().drop_last());
        assert(path.drop_last()[0] == path[0]);
        assert(path.drop_first().last() == path.last());
    }
}

pub proof fn lemma_first_fresh(outs: Seq<usize>, links: Seq<(usize, usize)>, visited: Seq<bool>)
    ensures
        first_fresh(outs, links, visited) matches Some(t) ==> {
            &&& (t as int) < links.len()
            &&& (links[t as int].1 as int) < visited.len()
            &&& !visited[links[t as int].1 as int]
        },
    decreases outs.len(),
{
    if outs.len() > 0 {
        lemma_first_fresh(outs.drop_first(), links, visited);
    }
}

pub proof fn lemma_unvisited_mark(visited: Seq<bool>, i: int)
    requires
        0 <= i < visited.len(),
        !visited[i],
    ensures
        unvisited(visited.update(i, true)) + 1 == unvisited(visited),
    decreases visited.len(),
{
    let w = visited.update(i, true);
    if i == visited.len() - 1 {
        assert(w.drop_last() =~= visited.drop_last());
    } else {
        assert(w.drop_last() =~= visited.drop_last().update(i, true));
        lemma_unvisited_mark(visited.drop_last(), i);
    }
}

/// Whether some edge out of `key` carries transition slot `x`.
pub open spec fn carried_from(edges: Seq<(NodeIndex, NodeIndex, usize)>, key: NodeIndex, x: usize) -> bool {
    exists|m: int| 0 <= m < edges.len() && edges[m].0 == key && edges[m].2 == x
}

pub proof fn lemma_out_slots_from(edges: Seq<(NodeIndex, NodeIndex, usize)>, key: NodeIndex)
    ensures
        forall|i: int| 0 <= i < out_slots(edges, key).len()
            ==> carried_from(edges, key, #[trigger] out_slots(edges, key)[i]),
    decreases edges.len(),
{
    if edges.len() > 0 {
        let rest = out_slots(edges.drop_last(), key);
        lemma_out_slots_from(edges.drop_last(), key);
        let out = out_slots(edges, key);
        assert forall|i: int| 0 <= i < out.len() implies carried_from(edges, key, #[trigger] out[i]) by {
            let k: int = if edges.last().0 == key { i - 1 } else { i };
            if k < 0 {
                assert(edges[edges.len() - 1].2 == out[i]);
            } else {
                assert(out[i] == rest[k]);
                assert(carried_from(edges.drop_last(), key, rest[k]));
                let m = choose|m: int| 0 <= m < edges.len() - 1 && edges.drop_last()[m].0 == key
                    && edges.drop_last()[m].2 == rest[k];
                assert(edges[m] == edges.drop_last()[m]);
            }
        }
    }
}

} // verus!
