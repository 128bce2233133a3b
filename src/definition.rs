//! The declarative description a graph is built from.
use vstd::prelude::*;

verus! {

/// A state that plays one clip.
pub struct SamplerNodeDefinition {
    /// Unique among the nodes of a definition.
    pub name: String,
    /// Playback speed in thousandths.
    pub speed: u64,
    /// Name of the clip played, looked up among the clips supplied.
    pub animation_name: String,
    pub looping: bool,
}

/// A blend space over the named clips. Blend spaces are not built yet.
pub struct BlendTreeOneDimDefinition {
    animation_names: Vec<String>,
}

impl BlendTreeOneDimDefinition {
    pub fn new(animation_names: Vec<String>) -> (r: BlendTreeOneDimDefinition)
        ensures
            r.animation_names() == animation_names,
    {
        BlendTreeOneDimDefinition { animation_names }
    }

    pub closed spec fn animation_names(self) -> Vec<String> {
        self.animation_names
    }

    pub fn names(&self) -> (r: &Vec<String>)
        ensures
            *r == self.animation_names(),
    {
        &self.animation_names
    }
}

pub enum GenericNodeDefinition {
    Sampler(SamplerNodeDefinition),
    BlendTreeOneDim(BlendTreeOneDimDefinition),
}

/// A crossfade of `duration` nanoseconds from node `from` to node `to`, both positions in
/// the definition's node list.
#[derive(Clone, Copy, Debug)]
pub struct TransitionDefinition {
    pub from: usize,
    pub to: usize,
    pub duration: u64,
}

/// Nodes and edges of a graph, and the node it starts on.
pub struct AnimGraphDefinition {
    pub nodes: Vec<GenericNodeDefinition>,
    pub edges: Vec<TransitionDefinition>,
    pub root: Option<usize>,
}

/// A clip that samplers can name: its name and its length in nanoseconds.
pub struct Clip {
    pub name: String,
    pub duration: u64,
}

} // verus!
