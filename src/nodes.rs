//! Animation states: the clip sampler and the one-dimensional blend-space stub.
//!
//! Time is kept in whole nanoseconds and playback speed in thousandths, so that playback
//! arithmetic is exact. The pose itself is produced by a sampling job outside this library,
//! at the ratio `seek / duration` that a sampler exposes.
use vstd::arithmetic::div_mod::lemma_add_mod_noop_right;
use vstd::prelude::*;

verus! {

/// Playback speed is counted in thousandths: this value plays a clip at its authored rate.
pub const UNIT_SPEED: u64 = 1000;

/// How far playback moves in `dt` nanoseconds at `speed` thousandths.
pub open spec fn playback_step(dt: u64, speed: u64) -> int {
    (dt as int * speed as int) / (UNIT_SPEED as int)
}

/// Plays one clip of `duration` nanoseconds.
#[derive(Clone, Copy, Debug)]
pub struct SamplerNode {
    /// Slot of the clip played, in the clip table the graph was built from.
    pub clip: usize,
    /// Length of the clip in nanoseconds.
    pub duration: u64,
    /// Playback speed in thousandths.
    pub speed: u64,
    /// Playback position in nanoseconds.
    pub seek: u64,
    pub looping: bool,
    pub finished: bool,
}

impl SamplerNode {
    /// A looping sampler stays inside the clip; any sampler stays within its length.
    pub open spec fn wf(self) -> bool {
        &&& self.seek <= self.duration
        &&& self.looping ==> !self.finished && (self.duration > 0 ==> self.seek < self.duration)
    }

    /// The sampler after `dt` nanoseconds of playback.
    pub open spec fn advanced(self, dt: u64) -> SamplerNode {
        let s = self.seek as int + playback_step(dt, self.speed);
        if self.looping && !self.finished {
            SamplerNode { seek: if self.duration > 0 { (s % self.duration as int) as u64 } else { 0 }, ..self }
        } else if s > self.duration as int {
            SamplerNode { seek: 0, finished: true, ..self }
        } else {
            SamplerNode { seek: s as u64, ..self }
        }
    }

    /// A sampler at the start of `clip`, playing at unit speed.
    pub fn new(clip: usize, duration: u64, looping: bool) -> (r: SamplerNode)
        ensures
            r == (SamplerNode { clip, duration, speed: UNIT_SPEED, seek: 0, looping, finished: false }),
            r.wf(),
    {
        SamplerNode { clip, duration, speed: UNIT_SPEED, seek: 0, looping, finished: false }
    }

    /// Advances playback by `dt * speed`. A looping clip wraps around its length; a
    /// non-looping one that runs past its end is marked finished and rewinds to the start.
    pub fn update(&mut self, dt: u64)
        ensures
            *final(self) == old(self).advanced(dt),
            old(self).wf() ==> final(self).wf(),
    {
        proof {
            assert(dt as int * self.speed as int <= u64::MAX as int * u64::MAX as int) by (nonlinear_arith);
        }
        let step: u128 = (dt as u128 * self.speed as u128) / (UNIT_SPEED as u128);
        let s: u128 = self.seek as u128 + step;
        if self.looping && !self.finished {
            if self.duration > 0 {
                self.seek = (s % (self.duration as u128)) as u64;
            } else {
                self.seek = 0;
            }
        } else if s > self.duration as u128 {
            self.seek = 0;
            self.finished = true;
        } else {
            self.seek = s as u64;
        }
    }

    /// Back to the start of the clip, not finished, at unit speed.
    pub fn reset(&mut self)
        ensures
            *final(self) == (SamplerNode { seek: 0, finished: false, speed: UNIT_SPEED, ..*old(self) }),
            old(self).wf() ==> final(self).wf(),
    {
        self.finished = false;
        self.seek = 0;
        self.speed = UNIT_SPEED;
    }

    /// Where in the clip the pose is sampled, as the fraction `(seek, duration)`.
    pub fn ratio(&self) -> (r: (u64, u64))
        ensures
            r == (self.seek, self.duration),
    {
        (self.seek, self.duration)
    }
}

/// A blend space over several clips keyed by one parameter. Its weighting is not defined
/// yet: it keeps its settings and produces no playback of its own.
#[derive(Clone, Copy, Debug)]
pub struct BlendTreeOneDimNode {
    pub playback_speed: u64,
    pub param: u64,
    /// How many clips the blend space was given.
    pub clip_count: usize,
}

impl BlendTreeOneDimNode {
    pub fn new(clip_count: usize) -> (r: BlendTreeOneDimNode)
        ensures
            r == (BlendTreeOneDimNode { playback_speed: UNIT_SPEED, param: 0, clip_count }),
    {
        BlendTreeOneDimNode { playback_speed: UNIT_SPEED, param: 0, clip_count }
    }

    /// Leaves the node as it is.
    pub fn update(&mut self, _dt: u64)
        ensures
            *final(self) == *old(self),
    {
    }
}

/// One animation state of the graph.
#[derive(Clone, Copy, Debug)]
pub enum GenericNode {
    Sampler(SamplerNode),
    BlendTreeOneDim(BlendTreeOneDimNode),
}

impl GenericNode {
    pub open spec fn wf(self) -> bool {
        match self {
            GenericNode::Sampler(s) => s.wf(),
            GenericNode::BlendTreeOneDim(_) => true,
        }
    }

    /// The state after `dt` nanoseconds.
    pub open spec fn advanced(self, dt: u64) -> GenericNode {
        match self {
            GenericNode::Sampler(s) => GenericNode::Sampler(s.advanced(dt)),
            GenericNode::BlendTreeOneDim(b) => GenericNode::BlendTreeOneDim(b),
        }
    }

    /// The state as it is when entered afresh.
    pub open spec fn rewound(self) -> GenericNode {
        match self {
            GenericNode::Sampler(s) => GenericNode::Sampler(SamplerNode { seek: 0, finished: false, speed: UNIT_SPEED, ..s }),
            GenericNode::BlendTreeOneDim(b) => GenericNode::BlendTreeOneDim(b),
        }
    }

    pub fn update(&mut self, dt: u64)
        ensures
            *final(self) == old(self).advanced(dt),
            old(self).wf() ==> final(self).wf(),
    {
        match self {
            GenericNode::Sampler(s) => s.update(dt),
            GenericNode::BlendTreeOneDim(b) => b.update(dt),
        }
    }

    pub fn reset(&mut self)
        ensures
            *final(self) == old(self).rewound(),
            old(self).wf() ==> final(self).wf(),
    {
        match self {
            GenericNode::Sampler(s) => s.reset(),
            GenericNode::BlendTreeOneDim(_) => {},
        }
    }
}

/// The sampler after playing each of `dts` in turn.
pub open spec fn played(s: SamplerNode, dts: Seq<u64>) -> SamplerNode
    decreases dts.len(),
{
    if dts.len() == 0 {
        s
    } else {
        played(s, dts.drop_last()).advanced(dts.last())
    }
}

/// The sum of `dts`.
pub open spec fn total(dts: Seq<u64>) -> int
    decreases dts.len(),
{
    if dts.len() == 0 {
        0
    } else {
        total(dts.drop_last()) + dts.last()
    }
}

pub proof fn lemma_total_nonneg(dts: Seq<u64>)
    ensures
        total(dts) >= 0,
    decreases dts.len(),
{
    if dts.len() > 0 {
        lemma_total_nonneg(dts.drop_last());
    }
}

pub proof fn lemma_unit_step(dt: u64)
    ensures
        playback_step(dt, UNIT_SPEED) == dt as int,
{
    assert((dt as int * 1000) / 1000 == dt as int) by (nonlinear_arith);
}

/// At unit speed a looping clip stands at the total time played, wrapped by its length, and
/// never finishes.
pub proof fn law_looping_wraps(s: SamplerNode, dts: Seq<u64>)
    requires
        s.wf(),
        s.looping,
        s.speed == UNIT_SPEED,
        s.duration > 0,
    ensures
        played(s, dts).seek as int == (s.seek + total(dts)) % (s.duration as int),
        !played(s, dts).finished,
        played(s, dts).looping,
        played(s, dts).speed == UNIT_SPEED,
        played(s, dts).duration == s.duration,
    decreases dts.len(),
{
    if dts.len() == 0 {
        vstd::arithmetic::div_mod::lemma_small_mod(s.seek as nat, s.duration as nat);
    } else {
        law_looping_wraps(s, dts.drop_last());
        let before = s.seek + total(dts.drop_last());
        lemma_unit_step(dts.last());
        lemma_add_mod_noop_right(dts.last() as int, before, s.duration as int);
    }
}

/// A clip that does not loop plays forward until a frame carries it past its end: that frame
/// marks it finished and rewinds it to the start.
pub proof fn law_one_shot_finishes(s: SamplerNode, dt: u64)
    requires
        s.wf(),
        !s.looping,
        !s.finished,
        s.speed == UNIT_SPEED,
    ensures
        s.seek + dt > s.duration ==> s.advanced(dt).finished && s.advanced(dt).seek == 0,
        s.seek + dt <= s.duration ==> !s.advanced(dt).finished && s.advanced(dt).seek == s.seek + dt,
{
    lemma_unit_step(dt);
}

} // verus!
