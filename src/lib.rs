//! Runtime animation state machine: a directed graph of animation states joined by timed
//! crossfades, a depth-first path resolver, and the per-frame evaluation that decides which
//! clips advance, which crossfade blends, and which pose buffer is authoritative.
mod animgraph;
mod construction;
mod definition;
mod edges;
mod graph;
mod nodes;
mod search;

pub use animgraph::{AnimGraph, AnimGraphError, ExecState, FrameOutput, PoseSource};
pub use edges::Transition;
pub use graph::SLOT_LIMIT;
pub use nodes::{BlendTreeOneDimNode, GenericNode, SamplerNode, UNIT_SPEED};
pub use definition::{
    AnimGraphDefinition, BlendTreeOneDimDefinition, Clip, GenericNodeDefinition, SamplerNodeDefinition,
    TransitionDefinition,
};
