use animgraph::{
    AnimGraph, AnimGraphDefinition, AnimGraphError, BlendTreeOneDimDefinition, Clip, ExecState,
    GenericNode, GenericNodeDefinition, PoseSource, SamplerNode, SamplerNodeDefinition, Transition,
    TransitionDefinition, UNIT_SPEED,
};

const MS: u64 = 1_000_000;

fn sampler(name: &str, clip: &str, looping: bool) -> GenericNodeDefinition {
    GenericNodeDefinition::Sampler(SamplerNodeDefinition {
        name: name.to_string(),
        speed: UNIT_SPEED,
        animation_name: clip.to_string(),
        looping,
    })
}

fn edge(from: usize, to: usize, duration: u64) -> TransitionDefinition {
    TransitionDefinition { from, to, duration }
}

fn clips() -> Vec<Clip> {
    vec![
        Clip { name: "idle".to_string(), duration: 1000 * MS },
        Clip { name: "walk".to_string(), duration: 800 * MS },
        Clip { name: "run".to_string(), duration: 600 * MS },
    ]
}

fn build(nodes: Vec<GenericNodeDefinition>, edges: Vec<TransitionDefinition>) -> AnimGraph {
    let def = AnimGraphDefinition { nodes, edges, root: Some(0) };
    match AnimGraph::new(&def, &clips()) {
        Ok(g) => g,
        Err(e) => panic!("construction failed: {:?}", e),
    }
}

fn build_err(nodes: Vec<GenericNodeDefinition>, edges: Vec<TransitionDefinition>, root: Option<usize>) -> AnimGraphError {
    let def = AnimGraphDefinition { nodes, edges, root };
    match AnimGraph::new(&def, &clips()) {
        Ok(_) => panic!("construction should fail"),
        Err(e) => e,
    }
}

fn seek_of(g: &AnimGraph, k: usize) -> u64 {
    match g.node(k) {
        GenericNode::Sampler(s) => s.seek,
        GenericNode::BlendTreeOneDim(_) => panic!("not a sampler"),
    }
}

#[test]
fn construction_missing_root() {
    let e = build_err(vec![sampler("a", "idle", true)], vec![], None);
    assert_eq!(e, AnimGraphError::MissingRoot);
}

#[test]
fn construction_invalid_root() {
    let e = build_err(vec![sampler("a", "idle", true)], vec![], Some(1));
    assert_eq!(e, AnimGraphError::InvalidRoot);
    let blend = GenericNodeDefinition::BlendTreeOneDim(BlendTreeOneDimDefinition::new(vec!["idle".to_string()]));
    let e = build_err(vec![sampler("a", "idle", true), blend], vec![], Some(1));
    assert_eq!(e, AnimGraphError::InvalidRoot);
}

#[test]
fn construction_unknown_animation() {
    let e = build_err(vec![sampler("a", "idle", true), sampler("b", "jump", true)], vec![], Some(0));
    assert_eq!(e, AnimGraphError::UnknownAnimation);
}

#[test]
fn construction_duplicate_name() {
    let e = build_err(vec![sampler("a", "idle", true), sampler("a", "walk", true)], vec![], Some(0));
    assert_eq!(e, AnimGraphError::DuplicateName);
}

#[test]
fn construction_first_fault_wins() {
    // the unknown clip of the second node is met before the duplicate name of the third
    let e = build_err(
        vec![sampler("a", "idle", true), sampler("b", "jump", true), sampler("a", "walk", true)],
        vec![],
        Some(0),
    );
    assert_eq!(e, AnimGraphError::UnknownAnimation);
    // node faults come before edge faults
    let e = build_err(vec![sampler("a", "idle", true), sampler("a", "walk", true)], vec![edge(0, 5, MS)], Some(0));
    assert_eq!(e, AnimGraphError::DuplicateName);
}

#[test]
fn construction_dangling_edge() {
    let e = build_err(vec![sampler("a", "idle", true), sampler("b", "walk", true)], vec![edge(0, 2, MS)], Some(0));
    assert_eq!(e, AnimGraphError::DanglingEdge);
    let blend = GenericNodeDefinition::BlendTreeOneDim(BlendTreeOneDimDefinition::new(vec![]));
    let e = build_err(vec![sampler("a", "idle", true), blend], vec![edge(0, 1, MS)], Some(0));
    assert_eq!(e, AnimGraphError::DanglingEdge);
}

#[test]
fn duplicate_edges_are_accepted() {
    let mut g = build(
        vec![sampler("a", "idle", true), sampler("b", "walk", true)],
        vec![edge(0, 1, MS), edge(1, 0, MS), edge(0, 1, 2 * MS)],
    );
    assert_eq!(g.transition_count(), 3);
    let t = g.transition(2);
    assert_eq!((t.from, t.to, t.duration), (0, 1, 2 * MS));
    // only the first edge between two nodes is linked into the graph
    g.set_target_node_by_name("b".to_string()).unwrap();
    assert_eq!(g.path_edges(), vec![0]);
}

#[test]
fn dangling_edge_after_duplicate_edges() {
    let e = build_err(
        vec![sampler("a", "idle", true), sampler("b", "walk", true)],
        vec![edge(0, 1, MS), edge(0, 1, MS), edge(0, 5, MS)],
        Some(0),
    );
    assert_eq!(e, AnimGraphError::DanglingEdge);
}

#[test]
fn construction_success() {
    let blend = GenericNodeDefinition::BlendTreeOneDim(BlendTreeOneDimDefinition::new(vec!["walk".to_string()]));
    let def = AnimGraphDefinition {
        nodes: vec![blend, sampler("a", "walk", false), sampler("b", "run", true)],
        edges: vec![edge(2, 1, 250 * MS)],
        root: Some(2),
    };
    let g = AnimGraph::new(&def, &clips()).unwrap();
    // the blend space gets no state, so the samplers take slots 0 and 1
    assert_eq!(g.node_count(), 2);
    assert_eq!(g.state(), ExecState::Resting(1));
    assert_eq!(g.target_slot(), 1);
    assert_eq!(g.path_edges(), Vec::<usize>::new());
    match g.node(0) {
        GenericNode::Sampler(s) => {
            assert_eq!(s.clip, 1);
            assert_eq!(s.duration, 800 * MS);
            assert!(!s.looping);
        },
        _ => panic!("expected a sampler"),
    }
    let t = g.transition(0);
    assert_eq!((t.from, t.to, t.duration, t.seek), (1, 0, 250 * MS, 0));
}

#[test]
fn single_node_never_transitions() {
    let mut g = build(vec![sampler("a", "idle", true)], vec![]);
    for _ in 0..5 {
        let out = g.evaluate(16 * MS).unwrap();
        assert_eq!(g.state(), ExecState::Resting(0));
        assert_eq!(out.source, PoseSource::Node(0));
        assert_eq!(g.current_source(), PoseSource::Node(0));
        assert_eq!(out.advanced, vec![0]);
        assert_eq!(out.blended, None);
        assert!(!out.rewired);
    }
    assert_eq!(seek_of(&g, 0), 80 * MS);
}

#[test]
fn two_node_crossfade_timing() {
    let mut g = build(vec![sampler("a", "idle", true), sampler("b", "walk", true)], vec![edge(0, 1, 100 * MS)]);
    let b = g.get_node_by_name("b".to_string()).unwrap();
    assert_eq!(g.set_target_node_by_idx(b), Ok(()));
    assert_eq!(g.path_edges(), vec![0]);
    assert_eq!(g.state(), ExecState::Resting(0));

    let out = g.evaluate(30 * MS).unwrap();
    assert_eq!(g.state(), ExecState::Transitioning(0));
    assert_eq!(g.transition(0).seek, 30 * MS);
    assert_eq!(g.transition(0).blend_ratio(), (30 * MS, 100 * MS));
    assert_eq!(out.blended, Some(0));
    assert_eq!(out.advanced, vec![0, 1]);
    assert_eq!(out.source, PoseSource::Transition(0));
    assert!(out.rewired);

    let out = g.evaluate(30 * MS).unwrap();
    assert_eq!(g.state(), ExecState::Transitioning(0));
    assert_eq!(g.transition(0).blend_ratio(), (60 * MS, 100 * MS));
    assert!(!out.rewired);

    let out = g.evaluate(50 * MS).unwrap();
    assert_eq!(g.state(), ExecState::Resting(1));
    assert_eq!(g.transition(0).seek, 0);
    assert_eq!(out.source, PoseSource::Node(1));
    assert!(out.rewired);
    assert_eq!(out.advanced, Vec::<usize>::new());

    let out = g.evaluate(10 * MS).unwrap();
    assert_eq!(g.state(), ExecState::Resting(1));
    assert_eq!(out.advanced, vec![1]);
    // the destination was rewound on entry and played 60 ms during the crossfade, 10 ms since
    assert_eq!(seek_of(&g, 1), 70 * MS);
}

#[test]
fn crossfade_shorter_than_frame_arrives_at_once() {
    let mut g = build(vec![sampler("a", "idle", true), sampler("b", "walk", true)], vec![edge(0, 1, 10 * MS)]);
    g.set_target_node_by_name("b".to_string()).unwrap();
    let out = g.evaluate(16 * MS).unwrap();
    assert_eq!(g.state(), ExecState::Resting(1));
    assert_eq!(g.transition(0).seek, 0);
    assert_eq!(out.source, PoseSource::Node(1));
}

#[test]
fn multi_hop_path_chains_crossfades() {
    let mut g = build(
        vec![sampler("a", "idle", true), sampler("b", "walk", true), sampler("c", "run", true)],
        vec![edge(0, 1, 20 * MS), edge(1, 2, 20 * MS)],
    );
    g.set_target_node_by_name("c".to_string()).unwrap();
    assert_eq!(g.path_edges(), vec![0, 1]);
    g.evaluate(10 * MS).unwrap();
    assert_eq!(g.state(), ExecState::Transitioning(0));
    let out = g.evaluate(10 * MS).unwrap();
    assert_eq!(g.state(), ExecState::Transitioning(1));
    assert_eq!(out.source, PoseSource::Transition(1));
    assert!(out.rewired);
    assert_eq!(g.path_edges(), Vec::<usize>::new());
    g.evaluate(15 * MS).unwrap();
    assert_eq!(g.state(), ExecState::Transitioning(1));
    let out = g.evaluate(5 * MS).unwrap();
    assert_eq!(g.state(), ExecState::Resting(2));
    assert_eq!(out.source, PoseSource::Node(2));
}

#[test]
fn path_follows_enumeration_order() {
    // the graph lists a node's newest out-edge first, so the search leaves `a` along a -> c
    let mut g = build(
        vec![sampler("a", "idle", true), sampler("b", "walk", true), sampler("c", "run", true), sampler("d", "idle", true)],
        vec![edge(0, 1, MS), edge(0, 2, MS), edge(1, 3, MS), edge(2, 3, MS)],
    );
    g.set_target_node_by_name("d".to_string()).unwrap();
    assert_eq!(g.path_edges(), vec![1, 3]);
}

#[test]
fn path_backtracks_from_dead_end() {
    // from `a` the search first tries the newest edge a -> c, a dead end, and backs up
    let mut g = build(
        vec![sampler("a", "idle", true), sampler("b", "walk", true), sampler("c", "run", true)],
        vec![edge(0, 1, MS), edge(0, 2, MS), edge(1, 2, MS)],
    );
    g.set_target_node_by_name("b".to_string()).unwrap();
    assert_eq!(g.path_edges(), vec![0]);
    let mut g = build(
        vec![sampler("a", "idle", true), sampler("b", "walk", true), sampler("c", "run", true), sampler("d", "run", true)],
        vec![edge(0, 3, MS), edge(0, 2, MS), edge(3, 1, MS)],
    );
    g.set_target_node_by_name("b".to_string()).unwrap();
    assert_eq!(g.path_edges(), vec![0, 2]);
}

#[test]
fn retarget_twice_gives_same_path() {
    let mut g = build(
        vec![sampler("a", "idle", true), sampler("b", "walk", true), sampler("c", "run", true)],
        vec![edge(0, 1, MS), edge(1, 2, MS), edge(0, 2, MS)],
    );
    let c = g.get_node_by_name("c".to_string()).unwrap();
    g.set_target_node_by_idx(c).unwrap();
    let first = g.path_edges();
    g.set_target_node_by_idx(c).unwrap();
    assert_eq!(g.path_edges(), first);
    assert_eq!(first, vec![2]);
}

#[test]
fn target_current_node_is_empty_path() {
    let mut g = build(vec![sampler("a", "idle", true), sampler("b", "walk", true)], vec![edge(0, 1, MS)]);
    let a = g.get_node_by_name("a".to_string()).unwrap();
    assert_eq!(g.set_target_node_by_idx(a), Ok(()));
    assert_eq!(g.path_edges(), Vec::<usize>::new());
    g.evaluate(16 * MS).unwrap();
    assert_eq!(g.state(), ExecState::Resting(0));
}

#[test]
fn unreachable_target_is_refused() {
    let mut g = build(
        vec![sampler("a", "idle", true), sampler("b", "walk", true), sampler("c", "run", true)],
        vec![edge(0, 1, MS), edge(2, 0, MS)],
    );
    g.set_target_node_by_name("b".to_string()).unwrap();
    assert_eq!(g.path_edges(), vec![0]);
    assert_eq!(g.target_slot(), 1);
    // the earlier path is dropped, and the runtime heads for where it stands
    assert_eq!(g.set_target_node_by_name("c".to_string()), Err(AnimGraphError::NoPathFound));
    assert_eq!(g.path_edges(), Vec::<usize>::new());
    assert_eq!(g.target_slot(), 0);
    assert_eq!(g.state(), ExecState::Resting(0));
    g.evaluate(16 * MS).unwrap();
    assert_eq!(g.state(), ExecState::Resting(0));
}

#[test]
fn retarget_mid_crossfade_starts_from_destination() {
    let mut g = build(
        vec![sampler("a", "idle", true), sampler("b", "walk", true), sampler("c", "run", true)],
        vec![edge(0, 1, 100 * MS), edge(1, 2, 100 * MS), edge(1, 0, 100 * MS)],
    );
    g.set_target_node_by_name("b".to_string()).unwrap();
    g.evaluate(10 * MS).unwrap();
    assert_eq!(g.state(), ExecState::Transitioning(0));
    g.set_target_node_by_name("c".to_string()).unwrap();
    assert_eq!(g.state(), ExecState::Transitioning(0));
    assert_eq!(g.path_edges(), vec![1]);
    // heading back to `a` goes on from `b`
    g.set_target_node_by_name("a".to_string()).unwrap();
    assert_eq!(g.path_edges(), vec![2]);
}

#[test]
fn unknown_target_name_is_noop() {
    let mut g = build(vec![sampler("a", "idle", true), sampler("b", "walk", true)], vec![edge(0, 1, MS)]);
    g.set_target_node_by_name("b".to_string()).unwrap();
    let before = g.path_edges();
    assert_eq!(g.set_target_node_by_name("nowhere".to_string()), Ok(()));
    assert_eq!(g.path_edges(), before);
    assert_eq!(g.target_slot(), 1);
    assert_eq!(g.state(), ExecState::Resting(0));
}

#[test]
fn unknown_node_handle_is_refused() {
    let big = build(
        vec![sampler("a", "idle", true), sampler("b", "walk", true), sampler("c", "run", true)],
        vec![],
    );
    let foreign = big.node_key(2);
    let mut small = build(vec![sampler("a", "idle", true)], vec![]);
    assert_eq!(small.set_target_node_by_idx(foreign), Err(AnimGraphError::UnknownNode));
}

#[test]
fn target_by_handle_equals_target_by_name() {
    let nodes = || vec![sampler("a", "idle", true), sampler("b", "walk", true), sampler("c", "run", true)];
    let edges = || vec![edge(0, 1, MS), edge(1, 2, MS)];
    let mut by_name = build(nodes(), edges());
    let mut by_handle = build(nodes(), edges());
    by_name.set_target_node_by_name("c".to_string()).unwrap();
    let c = by_handle.get_node_by_name("c".to_string()).unwrap();
    by_handle.set_target_node_by_idx(c).unwrap();
    assert_eq!(by_name.path_edges(), by_handle.path_edges());
    assert_eq!(by_name.target_slot(), by_handle.target_slot());
    assert_eq!(by_handle.target_slot(), 2);
}

#[test]
fn node_lookup_by_name() {
    let g = build(vec![sampler("a", "idle", true), sampler("b", "walk", true)], vec![]);
    assert_eq!(g.get_node_by_name("b".to_string()), Some(g.node_key(1)));
    assert_eq!(g.get_node_by_name("a".to_string()), Some(g.node_key(0)));
    assert_eq!(g.get_node_by_name("z".to_string()), None);
}

#[test]
fn looping_sampler_wraps() {
    let c = 400 * MS;
    let mut s = SamplerNode::new(0, c, true);
    s.update(c);
    s.update(c / 2);
    assert_eq!(s.seek, c / 2);
    assert!(!s.finished);
    assert_eq!(s.ratio(), (c / 2, c));
}

#[test]
fn looping_sampler_in_graph_wraps() {
    let mut g = build(vec![sampler("a", "run", true)], vec![]);
    g.evaluate(600 * MS).unwrap();
    g.evaluate(300 * MS).unwrap();
    assert_eq!(seek_of(&g, 0), 300 * MS);
}

#[test]
fn non_looping_sampler_finishes_and_rewinds() {
    let c = 400 * MS;
    let mut s = SamplerNode::new(0, c, false);
    s.update(300 * MS);
    assert!(!s.finished);
    assert_eq!(s.seek, 300 * MS);
    s.update(100 * MS);
    assert!(!s.finished);
    assert_eq!(s.seek, c);
    s.update(MS);
    assert!(s.finished);
    assert_eq!(s.seek, 0);
    s.update(50 * MS);
    assert!(s.finished);
    assert_eq!(s.seek, 50 * MS);
}

#[test]
fn sampler_speed_and_reset() {
    let mut s = SamplerNode::new(3, 1000 * MS, true);
    s.speed = 2 * UNIT_SPEED;
    s.update(300 * MS);
    assert_eq!(s.seek, 600 * MS);
    s.speed = UNIT_SPEED / 2;
    s.update(300 * MS);
    assert_eq!(s.seek, 750 * MS);
    s.reset();
    assert_eq!((s.seek, s.speed, s.finished), (0, UNIT_SPEED, false));
}

#[test]
fn zero_length_looping_clip_stays_at_start() {
    let mut s = SamplerNode::new(0, 0, true);
    s.update(5 * MS);
    assert_eq!(s.seek, 0);
}

#[test]
fn transition_advance_and_reset() {
    let mut t = Transition::new(100, 0, 1);
    assert!(!t.advance(40));
    assert_eq!(t.blend_ratio(), (40, 100));
    assert!(t.advance(60));
    assert_eq!(t.blend_ratio(), (100, 100));
    t.reset();
    assert_eq!((t.seek, t.started), (0, false));
    assert!(t.advance(u64::MAX));
    assert!(t.advance(u64::MAX));
    assert_eq!(t.seek, u64::MAX);
}

#[test]
fn blend_tree_definition_keeps_names() {
    let d = BlendTreeOneDimDefinition::new(vec!["idle".to_string(), "walk".to_string()]);
    assert_eq!(d.names(), &vec!["idle".to_string(), "walk".to_string()]);
}
