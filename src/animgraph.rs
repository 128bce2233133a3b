//! The graph runtime: execution state, the path resolver, and per-frame evaluation.
use crate::construction::{
    build_edges, build_nodes, built, definition_fault, edges_carry, first_edges, lemma_carry_same_links, slot_before,
    slot_owned,
};
use crate::definition::{AnimGraphDefinition, Clip, GenericNodeDefinition};
use crate::edges::Transition;
use crate::graph::{graph_edges, graph_nodes, out_slots, StateGraph, SLOT_LIMIT};
use crate::nodes::{lemma_total_nonneg, total, GenericNode};
use crate::search::{
    carried_from, dfs_search, first_fresh, lemma_first_fresh, lemma_out_slots_from, lemma_unvisited_mark,
    lemma_walk_first, links, stack_top, unvisited, walk_end,
};
use mapgraph::map::slotmap::NodeIndex;
use std::collections::VecDeque;
use vstd::prelude::*;

verus! {

/// Where the runtime is: resting on a state slot, or crossfading along a transition slot.
#[derive(Clone, Copy, Debug, PartialEq, Eq, Structural)]
pub enum ExecState {
    Resting(usize),
    Transitioning(usize),
}

/// The pose buffer that the local-to-model stage reads.
#[derive(Clone, Copy, Debug, PartialEq, Eq, Structural)]
pub enum PoseSource {
    Node(usize),
    Transition(usize),
}

/// Failures of building or running a graph.
#[derive(Clone, Copy, Debug, PartialEq, Eq, Structural)]
pub enum AnimGraphError {
    /// The definition names no root node.
    MissingRoot,
    /// The root is not a node of the definition, or not one that can be built.
    InvalidRoot,
    /// A sampler names a clip that is not supplied.
    UnknownAnimation,
    /// Two nodes share a name.
    DuplicateName,
    /// An edge ends at a node that was not built.
    DanglingEdge,
    /// A node handle that is not a node of this graph.
    UnknownNode,
    /// The target cannot be reached from where the runtime is heading.
    NoPathFound,
    /// The execution state names a node or transition that does not exist. A well-formed
    /// runtime never reports it.
    CorruptRuntimeState,
    /// The path ran out on a node other than the target. A well-formed runtime never reports
    /// it: its pending path always ends on the target.
    PathDidNotReachTarget,
}

/// What one frame of evaluation did, for the pose pipeline to carry out.
#[derive(Debug)]
pub struct FrameOutput {
    /// State slots whose playback advanced, in order; each is sampled afresh.
    pub advanced: Vec<usize>,
    /// The transition slot whose crossfade is blended this frame.
    pub blended: Option<usize>,
    /// The buffer the local-to-model stage reads this frame.
    pub source: PoseSource,
    /// Whether `source` differs from the previous frame's.
    pub rewired: bool,
}

/// The outcome of a frame, as a value.
pub struct Frame {
    pub states: Seq<GenericNode>,
    pub transitions: Seq<Transition>,
    pub execution: ExecState,
    pub path: Seq<usize>,
    pub advanced: Seq<usize>,
    pub blended: Option<usize>,
    pub source: PoseSource,
    pub rewired: bool,
}

/// A frame spent on the crossfade along `e`, with `rest` left to traverse afterwards.
/// Once the crossfade has run its length it rewinds and the next edge of `rest` is entered
/// (its destination rewound), or, with `rest` empty, the runtime comes to rest at the
/// destination. Otherwise both endpoint states play on and the crossfade is blended.
pub open spec fn crossfade(
    states: Seq<GenericNode>,
    trs: Seq<Transition>,
    e: int,
    rest: Seq<usize>,
    entered: bool,
    dt: u64,
) -> Frame {
    let tr = trs[e];
    let s = tr.seek_after(dt);
    if s >= tr.duration {
        let trs2 = trs.update(e, Transition { seek: 0, started: false, ..tr });
        if rest.len() > 0 {
            let e2 = rest[0];
            let d2 = trs2[e2 as int].to as int;
            Frame {
                states: states.update(d2, states[d2].rewound()),
                transitions: trs2,
                execution: ExecState::Transitioning(e2),
                path: rest.drop_first(),
                advanced: Seq::empty(),
                blended: None,
                source: PoseSource::Transition(e2),
                rewired: true,
            }
        } else {
            Frame {
                states,
                transitions: trs2,
                execution: ExecState::Resting(tr.to),
                path: rest,
                advanced: Seq::empty(),
                blended: None,
                source: PoseSource::Node(tr.to),
                rewired: true,
            }
        }
    } else {
        let f = tr.from as int;
        let t = tr.to as int;
        let st1 = states.update(f, states[f].advanced(dt));
        Frame {
            states: st1.update(t, st1[t].advanced(dt)),
            transitions: trs.update(e, Transition { seek: s, started: true, ..tr }),
            execution: ExecState::Transitioning(e as usize),
            path: rest,
            advanced: seq![tr.from, tr.to],
            blended: Some(e as usize),
            source: PoseSource::Transition(e as usize),
            rewired: entered,
        }
    }
}

/// The runtime of an animation graph.
pub struct AnimGraph {
    graph: StateGraph,
    nodes: Vec<GenericNode>,
    node_keys: Vec<NodeIndex>,
    names: Vec<String>,
    transitions: Vec<Transition>,
    root: usize,
    state: ExecState,
    target: usize,
    path: VecDeque<usize>,
}

impl AnimGraph {
    pub closed spec fn states(self) -> Seq<GenericNode> {
        self.nodes@
    }

    pub closed spec fn keys(self) -> Seq<NodeIndex> {
        self.node_keys@
    }

    pub closed spec fn node_names(self) -> Seq<Seq<char>> {
        self.names@.map_values(|s: String| s@)
    }

    pub closed spec fn transitions(self) -> Seq<Transition> {
        self.transitions@
    }

    pub closed spec fn topology(self) -> Seq<(NodeIndex, NodeIndex, usize)> {
        graph_edges(self.graph)
    }

    pub closed spec fn root(self) -> int {
        self.root as int
    }

    pub closed spec fn exec_state(self) -> ExecState {
        self.state
    }

    pub closed spec fn target(self) -> int {
        self.target as int
    }

    pub closed spec fn path(self) -> Seq<usize> {
        self.path@
    }

    /// The node that the path starts from: the resting node, or the end of the crossfade
    /// under way.
    pub open spec fn origin(self) -> int {
        match self.exec_state() {
            ExecState::Resting(n) => n as int,
            ExecState::Transitioning(e) => self.transitions()[e as int].to as int,
        }
    }

    /// The pending path leads from the origin to the target.
    pub open spec fn path_reaches_target(self) -> bool {
        walk_end(links(self.transitions()), self.origin(), self.path()) == Some(self.target())
    }

    /// What resolving a path from the origin to `target` gives.
    pub open spec fn resolved(self, target: int) -> Option<Seq<usize>> {
        if self.origin() == target {
            Some(Seq::empty())
        } else {
            dfs_search(
                self.topology(),
                self.keys(),
                links(self.transitions()),
                self.origin(),
                target,
                Seq::empty(),
                Seq::new(self.states().len(), |i: int| i == self.origin()),
            )
        }
    }

    pub closed spec fn wf(self) -> bool {
        let n = self.nodes@.len();
        let trs = self.transitions@;
        &&& self.node_keys@.len() == n
        &&& self.names@.len() == n
        &&& forall|a: int, b: int| 0 <= a < n && 0 <= b < n && a != b
            ==> (#[trigger] self.names@[a])@ != (#[trigger] self.names@[b])@
        &&& forall|k: int| 0 <= k < n ==> (#[trigger] self.nodes@[k]).wf()
        &&& forall|k: int| 0 <= k < n ==> graph_nodes(self.graph).contains_key(#[trigger] self.node_keys@[k])
            && graph_nodes(self.graph)[self.node_keys@[k]] == k
        &&& forall|key: NodeIndex| #[trigger] graph_nodes(self.graph).contains_key(key)
            ==> graph_nodes(self.graph)[key] < n && self.node_keys@[graph_nodes(self.graph)[key] as int] == key
        &&& forall|t: int| 0 <= t < trs.len() ==> (#[trigger] trs[t]).from < n && trs[t].to < n
        &&& edges_carry(graph_edges(self.graph), trs, self.node_keys@)
        &&& forall|t: int| 0 <= t < trs.len() && !(self.state is Transitioning && self.state->Transitioning_0 as int == t)
            ==> (#[trigger] trs[t]).seek == 0
        &&& self.root < n
        &&& self.target < n
        &&& match self.state {
            ExecState::Resting(k) => k < n,
            ExecState::Transitioning(e) => e < trs.len(),
        }
        &&& walk_end(links(trs), self.origin(), self.path@) == Some(self.target as int)
    }

    /// Resolves a path from `origin` to `target` by depth-first search.
    fn resolve_path(&self, origin: usize, target: usize) -> (r: Option<Vec<usize>>)
        requires
            self.wf(),
            origin == self.origin(),
            target < self.states().len(),
        ensures
            r matches Some(p) ==> self.resolved(target as int) == Some(p@),
            r is None ==> self.resolved(target as int) is None,
            r matches Some(p) ==> walk_end(links(self.transitions()), origin as int, p@) == Some(target as int),
    {
        if origin == target {
            return Some(Vec::new());
        }
        let ghost edges = graph_edges(self.graph);
        let ghost keys = self.node_keys@;
        let ghost lk = links(self.transitions@);
        let n = self.nodes.len();
        let mut visited: Vec<bool> = Vec::new();
        let mut i: usize = 0;
        while i < n
            invariant
                i <= n,
                visited@ =~= Seq::new(i as nat, |j: int| j == origin),
            decreases n - i,
        {
            visited.push(i == origin);
            i = i + 1;
        }
        let ghost goal = self.resolved(target as int);
        assert(visited@ =~= Seq::new(self.states().len(), |i: int| i == self.origin()));
        let mut stack: Vec<usize> = Vec::new();
        loop
            invariant
                self.wf(),
                n == self.nodes@.len(),
                origin < n,
                target < n,
                visited@.len() == n,
                edges == graph_edges(self.graph),
                keys == self.node_keys@,
                lk == links(self.transitions@),
                goal == self.resolved(target as int),
                dfs_search(edges, keys, lk, origin as int, target as int, stack@, visited@) == goal,
                walk_end(lk, origin as int, stack@) == Some(stack_top(lk, origin as int, stack@)),
                forall|j: int| 0 <= j < stack@.len() ==> (#[trigger] stack@[j]) < self.transitions@.len(),
            decreases 2 * unvisited(visited@) + stack@.len(),
        {
            let node: usize = if stack.len() == 0 {
                origin
            } else {
                self.transitions[stack[stack.len() - 1]].to
            };
            let outs = self.graph.outputs(self.node_keys[node]);
            proof {
                lemma_out_slots_from(edges, keys[node as int]);
            }
            let mut j: usize = 0;
            let mut found: Option<usize> = None;
            assert(outs@.subrange(0, outs@.len() as int) =~= outs@);
            while j < outs.len() && found.is_none()
                invariant
                    self.wf(),
                    j <= outs@.len(),
                    visited@.len() == n,
                    n == self.nodes@.len(),
                    lk == links(self.transitions@),
                    keys == self.node_keys@,
                    node < n,
                    outs@ == out_slots(edges, keys[node as int]),
                    edges == graph_edges(self.graph),
                    forall|i: int| 0 <= i < outs@.len() ==> carried_from(edges, keys[node as int], #[trigger] outs@[i]),
                    found is None ==> first_fresh(outs@, lk, visited@) == first_fresh(outs@.subrange(j as int, outs@.len() as int), lk, visited@),
                    found matches Some(t) ==> first_fresh(outs@, lk, visited@) == Some(t) && exists|i: int| 0 <= i < outs@.len() && outs@[i] == t,
                decreases outs@.len() - j,
            {
                let t = outs[j];
                proof {
                    let m = choose|m: int| 0 <= m < edges.len() && edges[m].0 == keys[node as int] && edges[m].2 == outs@[j as int];
                    assert(edges[m].2 < self.transitions@.len());
                }
                let to = self.transitions[t].to;
                assert(outs@.subrange(j as int, outs@.len() as int)[0] == t);
                if !visited[to] {
                    found = Some(t);
                } else {
                    assert(outs@.subrange(j as int, outs@.len() as int).drop_first() =~= outs@.subrange(j as int + 1, outs@.len() as int));
                }
                j = j + 1;
            }
            if found.is_none() {
                assert(outs@.subrange(j as int, outs@.len() as int) =~= Seq::<usize>::empty());
            }
            match found {
                Some(t) => {
                    proof {
                        lemma_first_fresh(outs@, lk, visited@);
                        let i = choose|i: int| 0 <= i < outs@.len() && outs@[i] == t;
                        let m = choose|m: int| 0 <= m < edges.len() && edges[m].0 == keys[node as int] && edges[m].2 == outs@[i];
                        assert(edges[m].2 == t);
                        assert(keys[self.transitions@[t as int].from as int] == keys[node as int]);
                        assert(self.transitions@[t as int].from < n);
                        assert(graph_nodes(self.graph)[keys[self.transitions@[t as int].from as int]] == self.transitions@[t as int].from);
                        assert(self.transitions@[t as int].from == node);
                        lemma_unvisited_mark(visited@, lk[t as int].1 as int);
                    }
                    let to = self.transitions[t].to;
                    let ghost old_stack = stack@;
                    assert(lk[t as int].1 == to);
                    assert(first_fresh(out_slots(edges, keys[node as int]), lk, visited@) == Some(t));
                    if to == target {
                        assert(dfs_search(edges, keys, lk, origin as int, target as int, stack@, visited@) == Some(stack@.push(t)));
                    }
                    stack.push(t);
                    visited.set(to, true);
                    assert(stack@.drop_last() =~= old_stack);
                    if to == target {
                        return Some(stack);
                    }
                },
                None => {
                    assert(first_fresh(out_slots(edges, keys[node as int]), lk, visited@) is None);
                    if stack.len() == 0 {
                        assert(dfs_search(edges, keys, lk, origin as int, target as int, stack@, visited@) is None);
                        return None;
                    }
                    let ghost old_stack = stack@;
                    stack.pop();
                    assert(stack@ =~= old_stack.drop_last());
                },
            }
        }
    }

    /// The state slot that the handle `key` names, if it is a node of this graph.
    pub open spec fn node_slot(self, key: NodeIndex) -> Option<int> {
        if self.handles().contains_key(key) {
            Some(self.handles()[key] as int)
        } else {
            None
        }
    }

    /// Every live node handle, with the state slot it names.
    pub closed spec fn handles(self) -> Map<NodeIndex, usize> {
        graph_nodes(self.graph)
    }

    /// The facts about names and handles that a well-formed runtime keeps: one name and one
    /// handle per state, names pairwise distinct, and handles and state slots naming each other.
    pub proof fn lemma_wf_handles(self)
        requires
            self.wf(),
        ensures
            self.node_names().len() == self.states().len(),
            self.keys().len() == self.states().len(),
            forall|a: int, b: int| 0 <= a < self.states().len() && 0 <= b < self.states().len() && a != b
                ==> #[trigger] self.node_names()[a] != #[trigger] self.node_names()[b],
            forall|k: int| 0 <= k < self.states().len() ==> self.node_slot(#[trigger] self.keys()[k]) == Some(k),
            forall|key: NodeIndex| (#[trigger] self.node_slot(key)) is Some ==> {
                let k = self.node_slot(key)->0;
                0 <= k < self.states().len() && self.keys()[k] == key
            },
    {
        assert forall|a: int, b: int| 0 <= a < self.states().len() && 0 <= b < self.states().len() && a != b
            implies #[trigger] self.node_names()[a] != #[trigger] self.node_names()[b] by {
            assert(self.names@[a]@ != self.names@[b]@);
        }
        assert forall|k: int| 0 <= k < self.states().len() implies self.node_slot(#[trigger] self.keys()[k]) == Some(k) by {
            assert(graph_nodes(self.graph).contains_key(self.node_keys@[k]));
        }
        assert forall|key: NodeIndex| (#[trigger] self.node_slot(key)) is Some implies {
            let k = self.node_slot(key)->0;
            0 <= k < self.states().len() && self.keys()[k] == key
        } by {
            if graph_nodes(self.graph).contains_key(key) {
                assert(graph_nodes(self.graph)[key] < self.nodes@.len());
            }
        }
    }

    /// The state slot of the node called `name`, if there is one.
    pub open spec fn slot_named(self, name: Seq<char>) -> Option<int> {
        if exists|i: int| 0 <= i < self.node_names().len() && self.node_names()[i] == name {
            Some(choose|i: int| 0 <= i < self.node_names().len() && self.node_names()[i] == name)
        } else {
            None
        }
    }

    /// Everything but the execution state, the target and the path.
    pub open spec fn same_graph(self, other: AnimGraph) -> bool {
        &&& self.keys() == other.keys()
        &&& self.handles() == other.handles()
        &&& self.node_names() == other.node_names()
        &&& self.topology() == other.topology()
        &&& self.root() == other.root()
    }

    /// Execution state, playback of every state, and every transition.
    pub open spec fn same_run(self, other: AnimGraph) -> bool {
        &&& self.states() == other.states()
        &&& self.transitions() == other.transitions()
        &&& self.exec_state() == other.exec_state()
    }

    /// `new` is `old` headed for `target` on the resolved path. When there is none, the prior
    /// path is dropped all the same, the runtime heads for where it already goes, and the
    /// outcome is `NoPathFound`.
    pub open spec fn retargeted(old: AnimGraph, new: AnimGraph, target: int, r: Result<(), AnimGraphError>) -> bool {
        &&& old.same_graph(new)
        &&& old.same_run(new)
        &&& match old.resolved(target) {
            Some(p) => r == Ok::<(), AnimGraphError>(()) && new.path() == p && new.target() == target,
            None => r == Err::<(), AnimGraphError>(AnimGraphError::NoPathFound)
                && new.path() == Seq::<usize>::empty() && new.target() == old.origin(),
        }
    }

    /// What the next frame of `dt` nanoseconds does. At rest with nowhere to go, the resting
    /// state plays on. At rest with a path, the first edge is entered (its destination
    /// rewound) and its crossfade runs this frame. Mid-crossfade, the crossfade runs.
    pub open spec fn frame(self, dt: u64) -> Frame {
        match self.exec_state() {
            ExecState::Resting(n) => if self.path().len() == 0 {
                Frame {
                    states: self.states().update(n as int, self.states()[n as int].advanced(dt)),
                    transitions: self.transitions(),
                    execution: self.exec_state(),
                    path: self.path(),
                    advanced: seq![n],
                    blended: None,
                    source: PoseSource::Node(n),
                    rewired: false,
                }
            } else {
                let e = self.path()[0] as int;
                let d = self.transitions()[e].to as int;
                crossfade(self.states().update(d, self.states()[d].rewound()), self.transitions(), e,
                    self.path().drop_first(), true, dt)
            },
            ExecState::Transitioning(e) => crossfade(self.states(), self.transitions(), e as int,
                self.path(), false, dt),
        }
    }

    /// `next` is this runtime after a frame of `dt` nanoseconds.
    pub open spec fn advances_to(self, next: AnimGraph, dt: u64) -> bool {
        let f = self.frame(dt);
        &&& next.wf()
        &&& self.same_graph(next)
        &&& next.target() == self.target()
        &&& next.states() == f.states
        &&& next.transitions() == f.transitions
        &&& next.exec_state() == f.execution
        &&& next.path() == f.path
    }

    /// This runtime and `out` are what frame `f` describes.
    pub open spec fn shows(self, out: FrameOutput, f: Frame) -> bool {
        &&& self.states() == f.states
        &&& self.transitions() == f.transitions
        &&& self.exec_state() == f.execution
        &&& self.path() == f.path
        &&& out.advanced@ == f.advanced
        &&& out.blended == f.blended
        &&& out.source == f.source
        &&& out.rewired == f.rewired
    }

    fn crossfade_step(&mut self, e: usize, entered: bool, dt: u64) -> (out: FrameOutput)
        requires
            old(self).wf(),
            old(self).exec_state() == ExecState::Transitioning(e),
        ensures
            final(self).wf(),
            old(self).same_graph(*final(self)),
            final(self).target() == old(self).target(),
            final(self).shows(out, crossfade(old(self).states(), old(self).transitions(), e as int, old(self).path(), entered, dt)),
    {
        let ghost trs0 = self.transitions@;
        let mut tr = self.transitions[e];
        let complete = tr.advance(dt);
        if complete {
            tr.reset();
            self.transitions.set(e, tr);
            assert(links(self.transitions@) =~= links(trs0));
            proof {
                lemma_carry_same_links(graph_edges(self.graph), trs0, self.transitions@, self.node_keys@);
            }
            if self.path.len() > 0 {
                proof {
                    lemma_walk_first(links(trs0), trs0[e as int].to as int, self.path@);
                }
                let e2 = match self.path.pop_front() {
                    Some(x) => x,
                    None => e,
                };
                let d2 = self.transitions[e2].to;
                let mut dest = self.nodes[d2];
                dest.reset();
                self.nodes.set(d2, dest);
                self.state = ExecState::Transitioning(e2);
                FrameOutput { advanced: Vec::new(), blended: None, source: PoseSource::Transition(e2), rewired: true }
            } else {
                self.state = ExecState::Resting(tr.to);
                FrameOutput { advanced: Vec::new(), blended: None, source: PoseSource::Node(tr.to), rewired: true }
            }
        } else {
            self.transitions.set(e, tr);
            assert(links(self.transitions@) =~= links(trs0));
            proof {
                lemma_carry_same_links(graph_edges(self.graph), trs0, self.transitions@, self.node_keys@);
            }
            let mut a = self.nodes[tr.from];
            a.update(dt);
            self.nodes.set(tr.from, a);
            let mut b = self.nodes[tr.to];
            b.update(dt);
            self.nodes.set(tr.to, b);
            let mut advanced: Vec<usize> = Vec::new();
            advanced.push(tr.from);
            advanced.push(tr.to);
            proof {
                assert(advanced@ =~= seq![tr.from, tr.to]);
            }
            FrameOutput { advanced, blended: Some(e), source: PoseSource::Transition(e), rewired: entered }
        }
    }

    /// Runs one frame of `dt` nanoseconds and reports what the pose pipeline has to do.
    /// A well-formed runtime never fails.
    pub fn evaluate(&mut self, dt: u64) -> (r: Result<FrameOutput, AnimGraphError>)
        requires
            old(self).wf(),
        ensures
            final(self).wf(),
            old(self).same_graph(*final(self)),
            final(self).target() == old(self).target(),
            r matches Ok(out) && final(self).shows(out, old(self).frame(dt)),
            old(self).advances_to(*final(self), dt),
    {
        match self.state {
            ExecState::Resting(n) => {
                if self.path.len() == 0 {
                    let mut node = self.nodes[n];
                    node.update(dt);
                    self.nodes.set(n, node);
                    let mut advanced: Vec<usize> = Vec::new();
                    advanced.push(n);
                    proof {
                        assert(advanced@ =~= seq![n]);
                    }
                    Ok(FrameOutput { advanced, blended: None, source: PoseSource::Node(n), rewired: false })
                } else {
                    proof {
                        lemma_walk_first(links(self.transitions@), n as int, self.path@);
                    }
                    let e = match self.path.pop_front() {
                        Some(x) => x,
                        None => {
                            return Err(AnimGraphError::CorruptRuntimeState);
                        },
                    };
                    let d = self.transitions[e].to;
                    let mut dest = self.nodes[d];
                    dest.reset();
                    self.nodes.set(d, dest);
                    self.state = ExecState::Transitioning(e);
                    Ok(self.crossfade_step(e, true, dt))
                }
            },
            ExecState::Transitioning(e) => Ok(self.crossfade_step(e, false, dt)),
        }
    }

    /// Resolves a path to state slot `target` from where the runtime is heading, and makes it
    /// the path to follow. A crossfade under way is not interrupted.
    fn set_target(&mut self, target: usize) -> (r: Result<(), AnimGraphError>)
        requires
            old(self).wf(),
            target < old(self).states().len(),
        ensures
            final(self).wf(),
            AnimGraph::retargeted(*old(self), *final(self), target as int, r),
    {
        let origin = match self.state {
            ExecState::Resting(n) => n,
            ExecState::Transitioning(e) => self.transitions[e].to,
        };
        match self.resolve_path(origin, target) {
            Some(p) => {
                let mut path: VecDeque<usize> = VecDeque::new();
                let mut i: usize = 0;
                while i < p.len()
                    invariant
                        i <= p@.len(),
                        path@ == p@.subrange(0, i as int),
                    decreases p@.len() - i,
                {
                    path.push_back(p[i]);
                    i = i + 1;
                    assert(path@ =~= p@.subrange(0, i as int));
                }
                assert(path@ =~= p@);
                self.path = path;
                self.target = target;
                Ok(())
            },
            None => {
                self.path = VecDeque::new();
                self.target = origin;
                Err(AnimGraphError::NoPathFound)
            },
        }
    }

    /// Heads for the node `node_idx`; see `set_target`. A handle that is not a node of this
    /// graph is refused with `UnknownNode`.
    pub fn set_target_node_by_idx(&mut self, node_idx: NodeIndex) -> (r: Result<(), AnimGraphError>)
        requires
            old(self).wf(),
        ensures
            final(self).wf(),
            match old(self).node_slot(node_idx) {
                Some(k) => AnimGraph::retargeted(*old(self), *final(self), k, r),
                None => r == Err::<(), AnimGraphError>(AnimGraphError::UnknownNode) && *final(self) == *old(self),
            },
    {
        match self.graph.node_weight(node_idx) {
            Some(k) => self.set_target(k),
            None => Err(AnimGraphError::UnknownNode),
        }
    }

    /// Heads for the node called `node_name`. An unknown name changes nothing and is no error.
    pub fn set_target_node_by_name(&mut self, node_name: String) -> (r: Result<(), AnimGraphError>)
        requires
            old(self).wf(),
        ensures
            final(self).wf(),
            match old(self).slot_named(node_name@) {
                Some(k) => AnimGraph::retargeted(*old(self), *final(self), k, r),
                None => r is Ok && *final(self) == *old(self),
            },
    {
        match self.find_name(&node_name) {
            Some(k) => self.set_target(k),
            None => Ok(()),
        }
    }

    /// The handle of the node called `node_name`.
    pub fn get_node_by_name(&self, node_name: String) -> (r: Option<NodeIndex>)
        requires
            self.wf(),
        ensures
            r == (match self.slot_named(node_name@) {
                Some(k) => Some(self.keys()[k]),
                None => None::<NodeIndex>,
            }),
    {
        match self.find_name(&node_name) {
            Some(k) => Some(self.node_keys[k]),
            None => None,
        }
    }

    fn find_name(&self, name: &String) -> (r: Option<usize>)
        requires
            self.wf(),
        ensures
            r matches Some(k) ==> self.slot_named(name@) == Some(k as int),
            r is None ==> self.slot_named(name@) is None,
    {
        let mut i: usize = 0;
        while i < self.names.len()
            invariant
                self.wf(),
                i <= self.names@.len(),
                self.names@.len() == self.nodes@.len(),
                forall|j: int| 0 <= j < i ==> (#[trigger] self.node_names()[j]) != name@,
            decreases self.names@.len() - i,
        {
            if self.names[i] == *name {
                proof {
                    assert(self.node_names()[i as int] == name@);
                    let c = choose|j: int| 0 <= j < self.node_names().len() && self.node_names()[j] == name@;
                    assert(self.names@[c]@ == self.names@[i as int]@);
                }
                return Some(i);
            }
            i = i + 1;
        }
        None
    }

    /// `self` is the runtime that `def` and `clips` build, at rest on the root: one state per
    /// sampler, in order, playing the clip it names; one transition per edge, in order.
    pub open spec fn built_from(self, def: AnimGraphDefinition, clips: Seq<Clip>) -> bool {
        let nodes = def.nodes@;
        let edges = def.edges@;
        let root = slot_before(nodes, def.root->0 as int);
        &&& self.states().len() == slot_before(nodes, nodes.len() as int)
        &&& forall|k: int| 0 <= k < self.states().len() ==> #[trigger] slot_owned(nodes, k)
        &&& forall|i: int| #[trigger] built(nodes, i) ==> {
            let d = nodes[i]->Sampler_0;
            let k = slot_before(nodes, i);
            let sn = self.states()[k]->Sampler_0;
            &&& 0 <= k < self.states().len()
            &&& self.node_names()[k] == d.name@
            &&& self.states()[k] is Sampler
            &&& sn.clip < clips.len()
            &&& clips[sn.clip as int].name@ == d.animation_name@
            &&& sn.duration == clips[sn.clip as int].duration
            &&& sn.speed == d.speed
            &&& sn.looping == d.looping
            &&& sn.seek == 0
            &&& !sn.finished
        }
        &&& self.transitions().len() == edges.len()
        &&& self.topology().len() == first_edges(edges, edges.len() as int).len()
        &&& forall|i: int| 0 <= i < self.topology().len()
            ==> (#[trigger] self.topology()[i]).2 == first_edges(edges, edges.len() as int)[i]
        &&& forall|j: int| 0 <= j < edges.len() ==> {
            let t = #[trigger] self.transitions()[j];
            &&& t.duration == edges[j].duration
            &&& t.seek == 0
            &&& !t.started
            &&& t.from as int == slot_before(nodes, edges[j].from as int)
            &&& t.to as int == slot_before(nodes, edges[j].to as int)
        }
        &&& self.root() == root
        &&& self.exec_state() == ExecState::Resting(root as usize)
        &&& self.target() == root
        &&& self.path() == Seq::<usize>::empty()
    }

    /// Builds the runtime for `definition`, with `clips` as the clips its samplers may name.
    /// Fails, building nothing, with the first fault that `definition_fault` finds.
    #[verifier::rlimit(50)]
    pub fn new(definition: &AnimGraphDefinition, clips: &Vec<Clip>) -> (r: Result<AnimGraph, AnimGraphError>)
        requires
            definition.nodes@.len() < SLOT_LIMIT,
            definition.edges@.len() < SLOT_LIMIT,
        ensures
            match definition_fault(*definition, clips@) {
                Some(e) => r == Err::<AnimGraph, AnimGraphError>(e),
                None => r matches Ok(g) && g.wf() && g.built_from(*definition, clips@),
            },
    {
        let root = match definition.root {
            None => {
                return Err(AnimGraphError::MissingRoot);
            },
            Some(x) => x,
        };
        if root >= definition.nodes.len() {
            return Err(AnimGraphError::InvalidRoot);
        }
        match &definition.nodes[root] {
            GenericNodeDefinition::BlendTreeOneDim(_) => {
                return Err(AnimGraphError::InvalidRoot);
            },
            GenericNodeDefinition::Sampler(_) => {},
        }
        let (mut graph, nodes, node_keys, names, slots) = match build_nodes(definition, clips) {
            Ok(t) => t,
            Err(e) => {
                return Err(e);
            },
        };
        let transitions = match build_edges(definition, &mut graph, &node_keys, &slots) {
            Ok(t) => t,
            Err(e) => {
                return Err(e);
            },
        };
        let rs = match slots[root] {
            Some(k) => k,
            None => root,
        };
        let g = AnimGraph {
            graph,
            nodes,
            node_keys,
            names,
            transitions,
            root: rs,
            state: ExecState::Resting(rs),
            target: rs,
            path: VecDeque::new(),
        };
        proof {
            let dn = definition.nodes@;
            assert(slots@[root as int] matches Some(k) && k as int == slot_before(dn, root as int));
            assert(walk_end(links(g.transitions@), g.origin(), g.path@) == Some(g.target as int));
            assert forall|i: int| #[trigger] built(dn, i) implies slot_before(dn, i) < g.nodes@.len() by {
                assert(slots@[i] matches Some(k) && k as int == slot_before(dn, i));
            }
        }
        Ok(g)
    }

    /// Where the runtime is.
    pub fn state(&self) -> (r: ExecState)
        ensures
            r == self.exec_state(),
    {
        self.state
    }

    /// The state slot the runtime is heading for.
    pub fn target_slot(&self) -> (r: usize)
        ensures
            r as int == self.target(),
    {
        self.target
    }

    /// The transition slots still to traverse, in order.
    pub fn path_edges(&self) -> (r: Vec<usize>)
        ensures
            r@ == self.path(),
    {
        let mut r: Vec<usize> = Vec::new();
        let mut i: usize = 0;
        while i < self.path.len()
            invariant
                i <= self.path@.len(),
                r@ == self.path@.subrange(0, i as int),
            decreases self.path@.len() - i,
        {
            r.push(self.path[i]);
            i = i + 1;
            assert(r@ =~= self.path@.subrange(0, i as int));
        }
        assert(r@ =~= self.path@);
        r
    }

    pub fn node_count(&self) -> (r: usize)
        ensures
            r == self.states().len(),
    {
        self.nodes.len()
    }

    /// The state in slot `k`.
    pub fn node(&self, k: usize) -> (r: GenericNode)
        requires
            k < self.states().len(),
        ensures
            r == self.states()[k as int],
    {
        self.nodes[k]
    }

    /// The handle of the node in state slot `k`.
    pub fn node_key(&self, k: usize) -> (r: NodeIndex)
        requires
            self.wf(),
            k < self.states().len(),
        ensures
            r == self.keys()[k as int],
    {
        self.node_keys[k]
    }

    pub fn transition_count(&self) -> (r: usize)
        ensures
            r == self.transitions().len(),
    {
        self.transitions.len()
    }

    /// The transition in slot `e`.
    pub fn transition(&self, e: usize) -> (r: Transition)
        requires
            e < self.transitions().len(),
        ensures
            r == self.transitions()[e as int],
    {
        self.transitions[e]
    }

    /// The pose buffer that is authoritative now: the resting state's, or the crossfade's.
    pub fn current_source(&self) -> (r: PoseSource)
        ensures
            r == (match self.exec_state() {
                ExecState::Resting(n) => PoseSource::Node(n),
                ExecState::Transitioning(e) => PoseSource::Transition(e),
            }),
    {
        match self.state {
            ExecState::Resting(n) => PoseSource::Node(n),
            ExecState::Transitioning(e) => PoseSource::Transition(e),
        }
    }
}

/// A graph without transitions never leaves the state it rests on, and every frame the
/// local-to-model stage reads that state's pose.
pub proof fn law_no_edges_stays_resting(g: AnimGraph, dt: u64)
    requires
        g.wf(),
        g.transitions().len() == 0,
    ensures
        g.exec_state() is Resting,
        g.frame(dt).execution == g.exec_state(),
        g.frame(dt).source == PoseSource::Node(g.exec_state()->Resting_0),
        !g.frame(dt).rewired,
{
    if g.path().len() > 0 {
        assert(walk_end(links(g.transitions()), g.origin(), g.path()) is None);
    }
}

/// Entering a one-edge path from rest: after the first frame the crossfade has run `dt`, or,
/// if that covers its length, the runtime already rests at the destination, which is the
/// target, with the crossfade rewound.
pub proof fn law_enter_crossfade(g: AnimGraph, dt: u64)
    requires
        g.wf(),
        g.exec_state() is Resting,
        g.path().len() == 1,
    ensures
        ({
            let e = g.path()[0] as int;
            let tr = g.transitions()[e];
            let f = g.frame(dt);
            &&& 0 <= e < g.transitions().len()
            &&& f.transitions.len() == g.transitions().len()
            &&& f.transitions[e].duration == tr.duration && f.transitions[e].to == tr.to
            &&& f.path.len() == 0
            &&& (dt as int) < tr.duration ==> f.execution == ExecState::Transitioning(e as usize)
                && f.transitions[e].seek == dt && f.blended == Some(e as usize)
            &&& (dt as int) >= tr.duration ==> f.execution == ExecState::Resting(tr.to)
                && tr.to as int == g.target() && f.transitions[e].seek == 0 && f.path.len() == 0
        }),
{
    lemma_walk_first(links(g.transitions()), g.origin(), g.path());
    assert(g.path().drop_first().len() == 0);
}

/// Mid-crossfade with nothing after it: the running time grows by each frame's `dt` until it
/// reaches the duration; that frame the runtime comes to rest at the destination, which is
/// the target, with the crossfade rewound.
pub proof fn law_crossfade_progress(g: AnimGraph, dt: u64)
    requires
        g.wf(),
        g.exec_state() is Transitioning,
        g.path().len() == 0,
    ensures
        ({
            let e = g.exec_state()->Transitioning_0 as int;
            let tr = g.transitions()[e];
            let f = g.frame(dt);
            &&& f.transitions.len() == g.transitions().len()
            &&& f.transitions[e].duration == tr.duration && f.transitions[e].to == tr.to
            &&& f.path.len() == 0
            &&& tr.seek + dt < tr.duration ==> f.execution == g.exec_state()
                && f.transitions[e].seek == tr.seek + dt && f.blended == Some(e as usize)
            &&& tr.seek + dt >= tr.duration ==> f.execution == ExecState::Resting(tr.to)
                && tr.to as int == g.target() && f.transitions[e].seek == 0 && f.path.len() == 0
        }),
{
}

/// Whatever a well-formed runtime has been through, following its pending path from where
/// it is heading ends on its target.
pub proof fn law_path_reaches_target(g: AnimGraph)
    requires
        g.wf(),
    ensures
        g.path_reaches_target(),
{
}

/// At rest with nowhere to go, a frame leaves the runtime where it is and every crossfade as
/// it was.
pub proof fn law_rest_stays(g: AnimGraph, dt: u64)
    requires
        g.wf(),
        g.exec_state() is Resting,
        g.path().len() == 0,
    ensures
        g.frame(dt).execution == g.exec_state(),
        g.frame(dt).transitions == g.transitions(),
        g.frame(dt).path.len() == 0,
{
}

/// A one-edge path followed over any number of frames: while the total time played stays
/// under the crossfade's duration the runtime is crossfading and the crossfade has run exactly
/// that long; from then on it rests at the destination, which is the target, with the
/// crossfade rewound.
/// The state a one-edge crossfade along `e` of `duration` to `to` is in after `t` nanoseconds.
pub open spec fn crossfade_after(g: AnimGraph, e: int, duration: u64, to: usize, t: int) -> bool {
    &&& g.wf()
    &&& 0 <= e < g.transitions().len()
    &&& g.path().len() == 0
    &&& g.transitions()[e].duration == duration
    &&& g.transitions()[e].to == to
    &&& t < duration ==> g.exec_state() is Transitioning && g.exec_state()->Transitioning_0 as int == e
        && g.transitions()[e].seek == t
    &&& t >= duration ==> g.exec_state() == ExecState::Resting(to) && to as int == g.target()
        && g.transitions()[e].seek == 0
}

pub proof fn lemma_crossfade_step(g: AnimGraph, next: AnimGraph, dt: u64, e: int, duration: u64, to: usize, t: int)
    requires
        crossfade_after(g, e, duration, to, t),
        g.advances_to(next, dt),
        0 <= t,
    ensures
        crossfade_after(next, e, duration, to, t + dt),
{
    if g.exec_state() is Transitioning {
        law_crossfade_progress(g, dt);
    } else {
        law_rest_stays(g, dt);
    }
}

/// A one-edge path followed over any number of frames: while the total time played stays
/// under the crossfade's duration the runtime is crossfading and the crossfade has run exactly
/// that long; from then on it rests at the destination, which is the target, with the
/// crossfade rewound.
pub proof fn law_crossfade_over_frames(gs: Seq<AnimGraph>, dts: Seq<u64>, n: int)
    requires
        gs.len() == dts.len() + 1,
        gs[0].wf(),
        gs[0].exec_state() is Resting,
        gs[0].path().len() == 1,
        forall|i: int| 0 <= i < dts.len() ==> (#[trigger] gs[i]).advances_to(gs[i + 1], dts[i]),
        1 <= n <= dts.len(),
    ensures
        ({
            let e = gs[0].path()[0] as int;
            let tr = gs[0].transitions()[e];
            crossfade_after(gs[n], e, tr.duration, tr.to, total(dts.subrange(0, n)))
        }),
    decreases n,
{
    let e = gs[0].path()[0] as int;
    let tr = gs[0].transitions()[e];
    if n == 1 {
        assert(gs[0].advances_to(gs[1], dts[0]));
        law_enter_crossfade(gs[0], dts[0]);
        assert(dts.subrange(0, 1).drop_last() =~= Seq::<u64>::empty());
        assert(dts.subrange(0, 1).last() == dts[0]);
        assert(total(dts.subrange(0, 1).drop_last()) == 0);
        assert(total(dts.subrange(0, 1)) == dts[0]);
    } else {
        law_crossfade_over_frames(gs, dts, n - 1);
        assert(gs[n - 1].advances_to(gs[n], dts[n - 1]));
        assert(dts.subrange(0, n).drop_last() =~= dts.subrange(0, n - 1));
        assert(dts.subrange(0, n).last() == dts[n - 1]);
        lemma_total_nonneg(dts.subrange(0, n - 1));
        lemma_crossfade_step(gs[n - 1], gs[n], dts[n - 1], e, tr.duration, tr.to, total(dts.subrange(0, n - 1)));
    }
}

/// The node that a name finds, and the node its handle finds, are one and the same, and no
/// other node has that name.
pub proof fn law_name_and_handle_agree(g: AnimGraph, name: Seq<char>)
    requires
        g.wf(),
        g.slot_named(name) is Some,
    ensures
        ({
            let k = g.slot_named(name)->0;
            &&& 0 <= k < g.states().len()
            &&& g.node_names()[k] == name
            &&& g.node_slot(g.keys()[k]) == Some(k)
            &&& forall|i: int| 0 <= i < g.states().len() && g.node_names()[i] == name ==> i == k
        }),
{
    g.lemma_wf_handles();
}

/// In a runtime built from a definition, a name finds the state of the sampler that carries
/// it, and finds nothing when no sampler does.
pub proof fn law_built_names(g: AnimGraph, def: AnimGraphDefinition, clips: Seq<Clip>, name: Seq<char>)
    requires
        g.wf(),
        g.built_from(def, clips),
    ensures
        forall|i: int| #[trigger] built(def.nodes@, i) && def.nodes@[i]->Sampler_0.name@ == name
            ==> g.slot_named(name) == Some(slot_before(def.nodes@, i)),
        (forall|i: int| #[trigger] built(def.nodes@, i) ==> def.nodes@[i]->Sampler_0.name@ != name)
            ==> g.slot_named(name) is None,
{
    g.lemma_wf_handles();
    let nodes = def.nodes@;
    assert forall|i: int| #[trigger] built(nodes, i) && nodes[i]->Sampler_0.name@ == name
        implies g.slot_named(name) == Some(slot_before(nodes, i)) by {
        let k = slot_before(nodes, i);
        assert(g.node_names()[k] == name);
        let c = choose|c: int| 0 <= c < g.node_names().len() && g.node_names()[c] == name;
        assert(g.node_names()[c] == g.node_names()[k]);
    }
    if forall|i: int| #[trigger] built(nodes, i) ==> nodes[i]->Sampler_0.name@ != name {
        assert forall|c: int| 0 <= c < g.node_names().len() implies g.node_names()[c] != name by {
            assert(slot_owned(nodes, c));
            let a = choose|a: int| #[trigger] built(nodes, a) && slot_before(nodes, a) == c;
            assert(nodes[a]->Sampler_0.name@ != name);
        }
    }
}

/// Resolving the same target twice in a row gives the same outcome and the same path: the
/// second resolution starts where the first did.
pub proof fn law_retarget_idempotent(
    a: AnimGraph,
    b: AnimGraph,
    c: AnimGraph,
    target: int,
    r1: Result<(), AnimGraphError>,
    r2: Result<(), AnimGraphError>,
)
    requires
        a.wf(),
        b.wf(),
        AnimGraph::retargeted(a, b, target, r1),
        AnimGraph::retargeted(b, c, target, r2),
    ensures
        r1 == r2,
        c.path() == b.path(),
        c.target() == b.target(),
        b.resolved(target) == a.resolved(target),
{
}

/// Heading for the node the runtime rests on resolves an empty path, and the next frame
/// leaves the runtime resting there.
pub proof fn law_target_self(a: AnimGraph, b: AnimGraph, r: Result<(), AnimGraphError>, dt: u64)
    requires
        a.wf(),
        a.exec_state() is Resting,
        AnimGraph::retargeted(a, b, a.exec_state()->Resting_0 as int, r),
    ensures
        r is Ok,
        b.path() == Seq::<usize>::empty(),
        b.frame(dt).execution == a.exec_state(),
{
}

} // verus!
