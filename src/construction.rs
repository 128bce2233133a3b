//! Checking a definition and building the states and transitions it describes.
use crate::animgraph::AnimGraphError;
use crate::definition::{AnimGraphDefinition, Clip, GenericNodeDefinition, TransitionDefinition};
use crate::edges::Transition;
use crate::graph::{graph_edges, graph_nodes, has_edge, StateGraph, SLOT_LIMIT};
use crate::nodes::{GenericNode, SamplerNode};
use crate::search::links;
use mapgraph::map::slotmap::NodeIndex;
use vstd::prelude::*;

verus! {

/// Whether definition node `i` exists and is one that gets built (a sampler).
pub open spec fn built(nodes: Seq<GenericNodeDefinition>, i: int) -> bool {
    0 <= i < nodes.len() && nodes[i] is Sampler
}

/// How many nodes before position `i` get built: the state slot of node `i`.
pub open spec fn slot_before(nodes: Seq<GenericNodeDefinition>, i: int) -> int
    decreases i,
{
    if i <= 0 {
        0
    } else {
        slot_before(nodes, i - 1) + if built(nodes, i - 1) { 1int } else { 0int }
    }
}

/// Whether state slot `k` is that of some node of the definition.
pub open spec fn slot_owned(nodes: Seq<GenericNodeDefinition>, k: int) -> bool {
    exists|a: int| #[trigger] built(nodes, a) && slot_before(nodes, a) == k
}

/// Whether some clip is called `name`.
pub open spec fn has_clip(clips: Seq<Clip>, name: Seq<char>) -> bool {
    exists|c: int| 0 <= c < clips.len() && clips[c].name@ == name
}

/// Whether a sampler before position `i` is called `name`.
pub open spec fn name_taken(nodes: Seq<GenericNodeDefinition>, i: int, name: Seq<char>) -> bool {
    exists|a: int| 0 <= a < i && built(nodes, a) && (#[trigger] nodes[a])->Sampler_0.name@ == name
}

/// What is wrong with node `i` itself.
pub open spec fn node_fault(nodes: Seq<GenericNodeDefinition>, clips: Seq<Clip>, i: int) -> Option<AnimGraphError> {
    match nodes[i] {
        GenericNodeDefinition::Sampler(d) => if !has_clip(clips, d.animation_name@) {
            Some(AnimGraphError::UnknownAnimation)
        } else if name_taken(nodes, i, d.name@) {
            Some(AnimGraphError::DuplicateName)
        } else {
            None
        },
        GenericNodeDefinition::BlendTreeOneDim(_) => None,
    }
}

/// The first fault among the first `k` nodes.
pub open spec fn nodes_fault(nodes: Seq<GenericNodeDefinition>, clips: Seq<Clip>, k: int) -> Option<AnimGraphError>
    decreases k,
{
    if k <= 0 {
        None
    } else {
        match nodes_fault(nodes, clips, k - 1) {
            Some(e) => Some(e),
            None => node_fault(nodes, clips, k - 1),
        }
    }
}

/// What is wrong with edge `j` itself.
pub open spec fn edge_fault(nodes: Seq<GenericNodeDefinition>, edges: Seq<TransitionDefinition>, j: int) -> Option<AnimGraphError> {
    let e = edges[j];
    if !built(nodes, e.from as int) || !built(nodes, e.to as int) {
        Some(AnimGraphError::DanglingEdge)
    } else {
        None
    }
}

/// Whether an edge before position `j` joins the same two nodes, in the same direction, as
/// edge `j`.
pub open spec fn repeats(edges: Seq<TransitionDefinition>, j: int) -> bool {
    exists|i: int| 0 <= i < j && (#[trigger] edges[i]).from == edges[j].from && edges[i].to == edges[j].to
}

/// The positions, among the first `k` edges, of those that are the first to join their two
/// nodes: these are the edges of the graph's topology. A later edge between the same nodes
/// still gets its transition, but the graph keeps only one edge per direction.
pub open spec fn first_edges(edges: Seq<TransitionDefinition>, k: int) -> Seq<usize>
    decreases k,
{
    if k <= 0 {
        Seq::empty()
    } else if repeats(edges, k - 1) {
        first_edges(edges, k - 1)
    } else {
        first_edges(edges, k - 1).push((k - 1) as usize)
    }
}

/// The first fault among the first `k` edges.
pub open spec fn edges_fault(nodes: Seq<GenericNodeDefinition>, edges: Seq<TransitionDefinition>, k: int) -> Option<AnimGraphError>
    decreases k,
{
    if k <= 0 {
        None
    } else {
        match edges_fault(nodes, edges, k - 1) {
            Some(e) => Some(e),
            None => edge_fault(nodes, edges, k - 1),
        }
    }
}

/// The first fault of a definition, looking at the root, then each node, then each edge.
pub open spec fn definition_fault(def: AnimGraphDefinition, clips: Seq<Clip>) -> Option<AnimGraphError> {
    match def.root {
        None => Some(AnimGraphError::MissingRoot),
        Some(r) => if !built(def.nodes@, r as int) {
            Some(AnimGraphError::InvalidRoot)
        } else {
            match nodes_fault(def.nodes@, clips, def.nodes@.len() as int) {
                Some(e) => Some(e),
                None => edges_fault(def.nodes@, def.edges@, def.edges@.len() as int),
            }
        },
    }
}

pub proof fn lemma_nodes_fault_sticks(nodes: Seq<GenericNodeDefinition>, clips: Seq<Clip>, k: int, m: int)
    requires
        k <= m,
        nodes_fault(nodes, clips, k) is Some,
    ensures
        nodes_fault(nodes, clips, m) == nodes_fault(nodes, clips, k),
    decreases m - k,
{
    if k < m {
        lemma_nodes_fault_sticks(nodes, clips, k, m - 1);
    }
}

pub proof fn lemma_edges_fault_sticks(nodes: Seq<GenericNodeDefinition>, edges: Seq<TransitionDefinition>, k: int, m: int)
    requires
        k <= m,
        edges_fault(nodes, edges, k) is Some,
    ensures
        edges_fault(nodes, edges, m) == edges_fault(nodes, edges, k),
    decreases m - k,
{
    if k < m {
        lemma_edges_fault_sticks(nodes, edges, k, m - 1);
    }
}

/// No more slots than nodes.
pub proof fn lemma_slot_bounded(nodes: Seq<GenericNodeDefinition>, i: int)
    requires
        0 <= i,
    ensures
        0 <= slot_before(nodes, i) <= i,
    decreases i,
{
    if i > 0 {
        lemma_slot_bounded(nodes, i - 1);
    }
}

/// Built nodes get increasing slots.
pub proof fn lemma_slot_increases(nodes: Seq<GenericNodeDefinition>, a: int, b: int)
    requires
        0 <= a < b,
    ensures
        slot_before(nodes, a) + (if built(nodes, a) { 1int } else { 0int }) <= slot_before(nodes, b),
    decreases b - a,
{
    if a + 1 < b {
        lemma_slot_increases(nodes, a, b - 1);
    }
}

/// The position of the first clip called `name`.
fn find_clip(clips: &Vec<Clip>, name: &String) -> (r: Option<usize>)
    ensures
        r matches Some(c) ==> c < clips@.len() && clips@[c as int].name@ == name@,
        r is None ==> !has_clip(clips@, name@),
{
    let mut c: usize = 0;
    while c < clips.len()
        invariant
            c <= clips@.len(),
            forall|x: int| 0 <= x < c ==> (#[trigger] clips@[x]).name@ != name@,
        decreases clips@.len() - c,
    {
        if clips[c].name == *name {
            return Some(c);
        }
        c = c + 1;
    }
    None
}

/// Whether a sampler before position `i` is called `name`.
fn sampler_named_before(nodes: &Vec<GenericNodeDefinition>, i: usize, name: &String) -> (r: bool)
    requires
        i <= nodes@.len(),
    ensures
        r == name_taken(nodes@, i as int, name@),
{
    let mut a: usize = 0;
    while a < i
        invariant
            i <= nodes@.len(),
            a <= i,
            forall|x: int| 0 <= x < a && built(nodes@, x) ==> (#[trigger] nodes@[x])->Sampler_0.name@ != name@,
        decreases i - a,
    {
        match &nodes[a] {
            GenericNodeDefinition::Sampler(d) => {
                if d.name == *name {
                    return true;
                }
            },
            GenericNodeDefinition::BlendTreeOneDim(_) => {},
        }
        a = a + 1;
    }
    false
}

/// The node handles `keys` and the graph's nodes name each other: slot `k` is node `keys[k]`.
pub open spec fn keyed(graph: StateGraph, keys: Seq<NodeIndex>) -> bool {
    &&& forall|k: int| 0 <= k < keys.len() ==> graph_nodes(graph).contains_key(#[trigger] keys[k])
        && graph_nodes(graph)[keys[k]] == k
    &&& forall|key: NodeIndex| #[trigger] graph_nodes(graph).contains_key(key)
        ==> graph_nodes(graph)[key] < keys.len() && keys[graph_nodes(graph)[key] as int] == key
}

/// The states, names and slot table built from the first `i` definition nodes.
pub open spec fn nodes_ready(
    nodes: Seq<GenericNode>,
    names: Seq<String>,
    slots: Seq<Option<usize>>,
    dn: Seq<GenericNodeDefinition>,
    clips: Seq<Clip>,
    i: int,
) -> bool {
    &&& nodes.len() == slot_before(dn, i)
    &&& names.len() == nodes.len()
    &&& slots.len() == i
    &&& forall|a: int| 0 <= a < i ==> if built(dn, a) { (#[trigger] slots[a]) matches Some(k) && k as int == slot_before(dn, a) } else { slots[a] is None }
    &&& forall|k: int| 0 <= k < nodes.len() ==> (#[trigger] nodes[k]).wf()
    &&& forall|x: int, y: int| 0 <= x < names.len() && 0 <= y < names.len() && x != y
        ==> (#[trigger] names[x])@ != (#[trigger] names[y])@
    &&& forall|a: int| 0 <= a < i && #[trigger] built(dn, a) ==> {
        let d = dn[a]->Sampler_0;
        let k = slot_before(dn, a);
        let sn = nodes[k]->Sampler_0;
        &&& 0 <= k < nodes.len()
        &&& names[k]@ == d.name@
        &&& nodes[k] is Sampler
        &&& sn.clip < clips.len()
        &&& clips[sn.clip as int].name@ == d.animation_name@
        &&& sn.duration == clips[sn.clip as int].duration
        &&& sn.speed == d.speed
        &&& sn.looping == d.looping
        &&& sn.seek == 0
        &&& !sn.finished
    }
}

/// Builds one state per sampler of the definition, in order, each keyed in a fresh graph.
#[verifier::rlimit(50)]
pub(crate) fn build_nodes(definition: &AnimGraphDefinition, clips: &Vec<Clip>) -> (r: Result<
    (StateGraph, Vec<GenericNode>, Vec<NodeIndex>, Vec<String>, Vec<Option<usize>>),
    AnimGraphError,
>)
    requires
        definition.nodes@.len() < SLOT_LIMIT,
    ensures
        match nodes_fault(definition.nodes@, clips@, definition.nodes@.len() as int) {
            Some(e) => r matches Err(x) && x == e,
            None => r matches Ok(t) && {
                &&& nodes_ready(t.1@, t.3@, t.4@, definition.nodes@, clips@, definition.nodes@.len() as int)
                &&& keyed(t.0, t.2@)
                &&& t.2@.len() == t.1@.len()
                &&& graph_edges(t.0) =~= Seq::<(NodeIndex, NodeIndex, usize)>::empty()
                &&& forall|k: int| 0 <= k < t.1@.len() ==> #[trigger] slot_owned(definition.nodes@, k)
            },
        },
{
    let ghost dn = definition.nodes@;
    let mut graph = StateGraph::new();
    let mut nodes: Vec<GenericNode> = Vec::new();
    let mut node_keys: Vec<NodeIndex> = Vec::new();
    let mut names: Vec<String> = Vec::new();
    let mut slots: Vec<Option<usize>> = Vec::new();
    let ghost mut owner: Seq<int> = Seq::empty();
    let mut i: usize = 0;
    while i < definition.nodes.len()
        invariant
            dn == definition.nodes@,
            i <= dn.len(),
            nodes_fault(dn, clips@, i as int) is None,
            nodes_ready(nodes@, names@, slots@, dn, clips@, i as int),
            keyed(graph, node_keys@),
            node_keys@.len() == nodes@.len(),
            graph_nodes(graph).dom().finite(),
            graph_nodes(graph).dom().len() == nodes@.len(),
            dn.len() < SLOT_LIMIT,
            owner.len() == nodes@.len(),
            graph_edges(graph) =~= Seq::<(NodeIndex, NodeIndex, usize)>::empty(),
            forall|k: int| 0 <= k < nodes@.len() ==> {
                let a = #[trigger] owner[k];
                &&& 0 <= a < i
                &&& built(dn, a)
                &&& names@[k]@ == dn[a]->Sampler_0.name@
            },
        decreases dn.len() - i,
    {
        match &definition.nodes[i] {
            GenericNodeDefinition::Sampler(d) => {
                let c = match find_clip(clips, &d.animation_name) {
                    Some(c) => c,
                    None => {
                        proof {
                            assert(nodes_fault(dn, clips@, i as int + 1) == Some(AnimGraphError::UnknownAnimation));
                            lemma_nodes_fault_sticks(dn, clips@, i as int + 1, dn.len() as int);
                        }
                        return Err(AnimGraphError::UnknownAnimation);
                    },
                };
                if sampler_named_before(&definition.nodes, i, &d.name) {
                    proof {
                        assert(nodes_fault(dn, clips@, i as int + 1) == Some(AnimGraphError::DuplicateName));
                        lemma_nodes_fault_sticks(dn, clips@, i as int + 1, dn.len() as int);
                    }
                    return Err(AnimGraphError::DuplicateName);
                }
                let k = nodes.len();
                proof {
                    lemma_slot_bounded(dn, i as int);
                }
                let mut sampler = SamplerNode::new(c, clips[c].duration, d.looping);
                sampler.speed = d.speed;
                let ghost old_keys = node_keys@;
                let ghost old_names = names@;
                nodes.push(GenericNode::Sampler(sampler));
                let key = graph.add_node(k);
                node_keys.push(key);
                names.push(d.name.clone());
                slots.push(Some(k));
                proof {
                    owner = owner.push(i as int);
                    assert(!name_taken(dn, i as int, d.name@));
                    assert forall|x: int| 0 <= x < k implies old_names[x]@ != d.name@ by {
                        let a = owner[x];
                        assert(built(dn, a));
                    }
                    assert forall|k2: int| 0 <= k2 < old_keys.len() implies old_keys[k2] != key by {
                        assert(graph_nodes(graph).contains_key(old_keys[k2]));
                    }
                }
            },
            GenericNodeDefinition::BlendTreeOneDim(_) => {
                slots.push(None);
            },
        }
        proof {
            assert(nodes_fault(dn, clips@, i as int + 1) is None);
            assert forall|a: int| 0 <= a < i + 1 && #[trigger] built(dn, a) implies slot_before(dn, a) < nodes@.len() by {
                if a < i {
                    lemma_slot_increases(dn, a, i as int);
                }
            }
        }
        i = i + 1;
    }
    proof {
        assert forall|k: int| 0 <= k < nodes@.len() implies #[trigger] slot_owned(dn, k) by {
            let a = owner[k];
            assert(built(dn, a) && slot_before(dn, a) == k);
        }
    }
    Ok((graph, nodes, node_keys, names, slots))
}

/// The graph's edges carry transition slots, each joining the nodes that its transition joins.
pub open spec fn edges_carry(edges: Seq<(NodeIndex, NodeIndex, usize)>, trs: Seq<Transition>, keys: Seq<NodeIndex>) -> bool {
    forall|i: int| 0 <= i < edges.len() ==> {
        &&& ((#[trigger] edges[i]).2 as int) < trs.len()
        &&& edges[i].0 == keys[trs[edges[i].2 as int].from as int]
        &&& edges[i].1 == keys[trs[edges[i].2 as int].to as int]
    }
}

/// Transitions that join the same nodes are carried by the same edges.
pub proof fn lemma_carry_same_links(
    edges: Seq<(NodeIndex, NodeIndex, usize)>,
    trs: Seq<Transition>,
    trs2: Seq<Transition>,
    keys: Seq<NodeIndex>,
)
    requires
        edges_carry(edges, trs, keys),
        links(trs) == links(trs2),
    ensures
        edges_carry(edges, trs2, keys),
{
    assert forall|i: int| 0 <= i < edges.len() implies {
        &&& ((#[trigger] edges[i]).2 as int) < trs2.len()
        &&& edges[i].0 == keys[trs2[edges[i].2 as int].from as int]
        &&& edges[i].1 == keys[trs2[edges[i].2 as int].to as int]
    } by {
        let w = edges[i].2 as int;
        assert(links(trs).len() == trs.len() && links(trs2).len() == trs2.len());
        assert(links(trs)[w] == (trs[w].from, trs[w].to));
        assert(links(trs2)[w] == (trs2[w].from, trs2[w].to));
    }
}

/// No more edges of the topology than edges.
pub proof fn lemma_first_edges_len(edges: Seq<TransitionDefinition>, k: int)
    requires
        0 <= k,
    ensures
        first_edges(edges, k).len() <= k,
    decreases k,
{
    if k > 0 {
        lemma_first_edges_len(edges, k - 1);
    }
}

/// Adds one transition per edge of the definition, in order, and links into a graph keyed by
/// `keys` each edge that is the first between its two nodes.
pub(crate) fn build_edges(
    definition: &AnimGraphDefinition,
    graph: &mut StateGraph,
    keys: &Vec<NodeIndex>,
    slots: &Vec<Option<usize>>,
) -> (r: Result<Vec<Transition>, AnimGraphError>)
    requires
        definition.edges@.len() < SLOT_LIMIT,
        keyed(*old(graph), keys@),
        graph_edges(*old(graph)) =~= Seq::<(NodeIndex, NodeIndex, usize)>::empty(),
        slots@.len() == definition.nodes@.len(),
        keys@.len() == slot_before(definition.nodes@, definition.nodes@.len() as int),
        forall|a: int| 0 <= a < definition.nodes@.len() ==> if built(definition.nodes@, a) {
            (#[trigger] slots@[a]) matches Some(k) && k as int == slot_before(definition.nodes@, a)
        } else {
            slots@[a] is None
        },
        forall|a: int| #[trigger] built(definition.nodes@, a) ==> slot_before(definition.nodes@, a) < keys@.len(),
    ensures
        match edges_fault(definition.nodes@, definition.edges@, definition.edges@.len() as int) {
            Some(e) => r matches Err(x) && x == e,
            None => r matches Ok(trs) && {
                let de = definition.edges@;
                let top = first_edges(de, de.len() as int);
                &&& keyed(*final(graph), keys@)
                &&& edges_carry(graph_edges(*final(graph)), trs@, keys@)
                &&& graph_edges(*final(graph)).len() == top.len()
                &&& forall|i: int| 0 <= i < top.len() ==> (#[trigger] graph_edges(*final(graph))[i]).2 == top[i]
                &&& trs@.len() == de.len()
                &&& forall|t: int| 0 <= t < trs@.len() ==> {
                    let tr = #[trigger] trs@[t];
                    &&& tr.from < keys@.len()
                    &&& tr.to < keys@.len()
                    &&& tr.duration == de[t].duration
                    &&& tr.seek == 0
                    &&& !tr.started
                    &&& tr.from as int == slot_before(definition.nodes@, de[t].from as int)
                    &&& tr.to as int == slot_before(definition.nodes@, de[t].to as int)
                }
            },
        },
{
    let ghost dn = definition.nodes@;
    let ghost de = definition.edges@;
    let mut transitions: Vec<Transition> = Vec::new();
    let mut j: usize = 0;
    while j < definition.edges.len()
        invariant
            dn == definition.nodes@,
            de == definition.edges@,
            j <= de.len(),
            de.len() < SLOT_LIMIT,
            edges_fault(dn, de, j as int) is None,
            slots@.len() == dn.len(),
            forall|a: int| 0 <= a < dn.len() ==> if built(dn, a) { (#[trigger] slots@[a]) matches Some(k) && k as int == slot_before(dn, a) } else { slots@[a] is None },
            forall|a: int| #[trigger] built(dn, a) ==> slot_before(dn, a) < keys@.len(),
            keyed(*graph, keys@),
            transitions@.len() == j,
            edges_carry(graph_edges(*graph), transitions@, keys@),
            graph_edges(*graph).len() == first_edges(de, j as int).len(),
            forall|i: int| 0 <= i < first_edges(de, j as int).len() ==> (#[trigger] graph_edges(*graph)[i]).2 == first_edges(de, j as int)[i],
            forall|x: int| 0 <= x < j ==> has_edge(graph_edges(*graph), keys@[(#[trigger] transitions@[x]).from as int], keys@[transitions@[x].to as int]),
            forall|t: int| 0 <= t < j ==> {
                let tr = #[trigger] transitions@[t];
                &&& tr.from < keys@.len()
                &&& tr.to < keys@.len()
                &&& tr.duration == de[t].duration
                &&& tr.seek == 0
                &&& !tr.started
                &&& built(dn, de[t].from as int)
                &&& built(dn, de[t].to as int)
                &&& tr.from as int == slot_before(dn, de[t].from as int)
                &&& tr.to as int == slot_before(dn, de[t].to as int)
            },
        decreases de.len() - j,
    {
        let ed = definition.edges[j];
        if ed.from >= slots.len() || ed.to >= slots.len() {
            proof {
                assert(edges_fault(dn, de, j as int + 1) == Some(AnimGraphError::DanglingEdge));
                lemma_edges_fault_sticks(dn, de, j as int + 1, de.len() as int);
            }
            return Err(AnimGraphError::DanglingEdge);
        }
        let (f, t) = match (slots[ed.from], slots[ed.to]) {
            (Some(f), Some(t)) => (f, t),
            _ => {
                proof {
                    assert(edges_fault(dn, de, j as int + 1) == Some(AnimGraphError::DanglingEdge));
                    lemma_edges_fault_sticks(dn, de, j as int + 1, de.len() as int);
                }
                return Err(AnimGraphError::DanglingEdge);
            },
        };
        let ghost before = graph_edges(*graph);
        let ghost trs0 = transitions@;
        proof {
            assert(built(dn, ed.from as int) && built(dn, ed.to as int));
            assert(de[j as int] == ed);
            // the graph already joins the two nodes exactly when an earlier edge does
            if has_edge(before, keys@[f as int], keys@[t as int]) {
                let m = choose|m: int| 0 <= m < before.len() && (#[trigger] before[m]).0 == keys@[f as int]
                    && before[m].1 == keys@[t as int];
                let w = before[m].2 as int;
                let tw = trs0[w];
                assert(graph_nodes(*graph)[keys@[tw.from as int]] == tw.from);
                assert(graph_nodes(*graph)[keys@[f as int]] == f);
                assert(graph_nodes(*graph)[keys@[tw.to as int]] == tw.to);
                assert(graph_nodes(*graph)[keys@[t as int]] == t);
                if de[w].from < ed.from {
                    lemma_slot_increases(dn, de[w].from as int, ed.from as int);
                } else if de[w].from > ed.from {
                    lemma_slot_increases(dn, ed.from as int, de[w].from as int);
                }
                if de[w].to < ed.to {
                    lemma_slot_increases(dn, de[w].to as int, ed.to as int);
                } else if de[w].to > ed.to {
                    lemma_slot_increases(dn, ed.to as int, de[w].to as int);
                }
                assert(de[w].from == de[j as int].from && de[w].to == de[j as int].to);
                assert(repeats(de, j as int));
            }
            if repeats(de, j as int) {
                let x = choose|x: int| 0 <= x < j && (#[trigger] de[x]).from == de[j as int].from && de[x].to == de[j as int].to;
                assert(trs0[x].from == f && trs0[x].to == t);
            }
        }
        proof {
            lemma_first_edges_len(de, j as int);
        }
        let added = graph.add_edge(j, keys[f], keys[t]);
        transitions.push(Transition::new(ed.duration, f, t));
        proof {
            let after = graph_edges(*graph);
            assert(transitions@[j as int].from == f && transitions@[j as int].to == t);
            assert(transitions@[j as int].duration == de[j as int].duration);
            assert(slots@[ed.from as int] matches Some(k) && k as int == slot_before(dn, ed.from as int));
            assert(slots@[ed.to as int] matches Some(k) && k as int == slot_before(dn, ed.to as int));
            assert(f < keys@.len() && t < keys@.len());
            assert forall|x: int| 0 <= x < j implies (#[trigger] transitions@[x]) == trs0[x] by {}
            if added {
                assert(first_edges(de, j as int + 1) == first_edges(de, j as int).push(j));
                assert forall|x: int| 0 <= x < j + 1 implies has_edge(after, keys@[(#[trigger] transitions@[x]).from as int],
                    keys@[transitions@[x].to as int]) by {
                    if x < j {
                        let m = choose|m: int| 0 <= m < before.len() && (#[trigger] before[m]).0 == keys@[trs0[x].from as int]
                            && before[m].1 == keys@[trs0[x].to as int];
                        assert(after[m] == before[m]);
                    } else {
                        assert(after[before.len() as int] == (keys@[f as int], keys@[t as int], j));
                    }
                }
                assert forall|i: int| 0 <= i < after.len() implies {
                    &&& ((#[trigger] after[i]).2 as int) < transitions@.len()
                    &&& after[i].0 == keys@[transitions@[after[i].2 as int].from as int]
                    &&& after[i].1 == keys@[transitions@[after[i].2 as int].to as int]
                } by {
                    if i < before.len() {
                        assert(after[i] == before[i]);
                    }
                }
            } else {
                assert(first_edges(de, j as int + 1) == first_edges(de, j as int));
            }
            assert(edges_fault(dn, de, j as int + 1) is None);
        }
        j = j + 1;
    }
    Ok(transitions)
}

} // verus!
