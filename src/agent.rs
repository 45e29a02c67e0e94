//! One agent of a generation: a network together with the state of its episode.
//!
//! Fitness is counted in tenths of a point: a frame survived is worth `0.1`, a
//! point scored `100`, and each frame beyond the thousandth a further `0.5`.
use crate::network::{output_layer, within, NetworkView, NeuralNetwork, INPUT_LIMIT};
use vstd::prelude::*;

verus! {

/// Fitness, in tenths, of one frame survived.
pub const FRAME_REWARD: u64 = 1;

/// Fitness, in tenths, of one point scored.
pub const POINT_REWARD: u64 = 1000;

/// Frames after which each further frame earns [`LONG_SURVIVAL_REWARD`] more.
pub const LONG_SURVIVAL_FRAMES: u32 = 1000;

/// Fitness, in tenths, of each frame survived beyond [`LONG_SURVIVAL_FRAMES`].
pub const LONG_SURVIVAL_REWARD: u64 = 5;

/// An output above this value (one half) means "activate".
pub const DECISION_THRESHOLD: i64 = 5_000;

/// The fitness of an episode of `frames` frames with `score` points, in tenths.
pub open spec fn fitness_of(frames: u32, score: u32) -> int {
    frames * FRAME_REWARD + score * POINT_REWARD + if frames > LONG_SURVIVAL_FRAMES {
        (frames - LONG_SURVIVAL_FRAMES) * LONG_SURVIVAL_REWARD
    } else {
        0
    }
}

/// An agent: its network and the state of its current episode.
#[derive(Debug)]
pub struct AIBird {
    pub brain: NeuralNetwork,
    pub fitness: u64,
    pub alive: bool,
    pub score: u32,
    pub frames_alive: u32,
}

/// The mathematical content of an [`AIBird`].
pub struct AgentView {
    pub brain: NetworkView,
    pub fitness: int,
    pub alive: bool,
    pub score: u32,
    pub frames_alive: u32,
}

impl View for AIBird {
    type V = AgentView;

    open spec fn view(&self) -> AgentView {
        AgentView {
            brain: self.brain@,
            fitness: self.fitness as int,
            alive: self.alive,
            score: self.score,
            frames_alive: self.frames_alive,
        }
    }
}

/// The agent after `die`: a living agent stops and has its fitness frozen by
/// the formula; a dead one stays as it is.
pub open spec fn die_spec(a: AgentView) -> AgentView {
    if a.alive {
        AgentView { alive: false, fitness: fitness_of(a.frames_alive, a.score), ..a }
    } else {
        a
    }
}

/// The agent `a` after one more tick: a living agent counts the frame, up to `u32::MAX`.
pub open spec fn ticked(a: AgentView) -> AgentView {
    AgentView {
        frames_alive: if a.alive && a.frames_alive < u32::MAX {
            (a.frames_alive + 1) as u32
        } else {
            a.frames_alive
        },
        ..a
    }
}

/// The decision of an agent on an observation: only a living agent activates,
/// and only when its first output exceeds one half.
pub open spec fn decision(a: AgentView, inputs: Seq<i64>) -> bool {
    a.alive && output_layer(a.brain, inputs)[0] > DECISION_THRESHOLD
}

/// Dying a second time changes nothing: the fitness frozen by the first death stays.
pub proof fn lemma_die_is_idempotent(a: AgentView)
    ensures
        die_spec(die_spec(a)) == die_spec(a),
        die_spec(die_spec(a)).fitness == die_spec(a).fitness,
{
}

proof fn lemma_fitness_fits(frames: u32, score: u32)
    ensures
        0 <= fitness_of(frames, score) <= u64::MAX,
{
}

impl AIBird {
    /// A living agent at the start of its episode.
    pub fn new(brain: NeuralNetwork) -> (r: Self)
        ensures
            r.brain@ == brain@,
            r.fitness == 0,
            r.alive,
            r.score == 0,
            r.frames_alive == 0,
    {
        AIBird { brain, fitness: 0, alive: true, score: 0, frames_alive: 0 }
    }

    /// Whether the agent activates on this observation. A dead agent never
    /// consults its network.
    pub fn think(&self, inputs: &[i64]) -> (r: bool)
        requires
            self.brain.wf(),
            inputs@.len() == self.brain.input_size,
            within(inputs@, INPUT_LIMIT as int),
        ensures
            r == decision(self@, inputs@),
    {
        if !self.alive {
            return false;
        }
        let outputs = self.brain.forward(inputs);
        outputs[0] > DECISION_THRESHOLD
    }

    /// Sets the fitness from the frames survived and the points scored.
    pub fn calculate_fitness(&mut self)
        ensures
            final(self)@ == (AgentView { fitness: fitness_of(old(self).frames_alive, old(self).score), ..old(self)@ }),
    {
        proof {
            lemma_fitness_fits(self.frames_alive, self.score);
        }
        let frames = self.frames_alive as u64;
        let mut fitness = frames * FRAME_REWARD + self.score as u64 * POINT_REWARD;
        if self.frames_alive > LONG_SURVIVAL_FRAMES {
            fitness = fitness + (self.frames_alive - LONG_SURVIVAL_FRAMES) as u64 * LONG_SURVIVAL_REWARD;
        }
        self.fitness = fitness;
    }

    /// Ends the episode and freezes the fitness; on a dead agent it does nothing.
    pub fn die(&mut self)
        ensures
            final(self)@ == die_spec(old(self)@),
    {
        if self.alive {
            self.alive = false;
            self.calculate_fitness();
        }
    }

    /// Counts one more frame survived, for a living agent; the count stops at `u32::MAX`.
    pub fn update_frames(&mut self)
        ensures
            final(self)@ == ticked(old(self)@),
    {
        if self.alive && self.frames_alive < u32::MAX {
            self.frames_alive = self.frames_alive + 1;
        }
    }
}

} // verus!
