//! The bulk-synchronous task runner.
//!
//! A computation is a list of per-vertex steps and a superstep bound. Each
//! superstep runs the current step over every vertex, in shard order and
//! ascending local id within a shard, reading the store through a window
//! and folding partial values into a shuffle state, whose keys live in the
//! shard that owns them. When every vertex votes to halt, or the bound is
//! reached, the run stops; the caller finalizes the state into per-vertex
//! results.

use crate::accumulator::AccId;
use crate::graph::GraphDB;
use crate::shard::{Direction, Window};
use crate::state::ShuffleComputeState;
use vstd::prelude::*;

verus! {

/// A vertex's vote after one step.
#[derive(Clone, Copy, Debug, PartialEq, Eq, Structural)]
pub enum Step {
    Continue,
    Done,
}

/// One per-vertex step of a computation. The runner gives each invocation
/// the store, the window under which to read it, the vertex, the current
/// superstep and the compute state; the step may fold deltas into the
/// state and votes whether to run again.
pub trait VertexStep {
    fn step(
        &self,
        g: &GraphDB,
        w: Window,
        v: u64,
        ss: usize,
        state: &mut ShuffleComputeState,
    ) -> (vote: Step)
        requires
            g.wf(),
            old(state).wf(),
        ensures
            final(state).wf(),
            final(state).nr_shards == old(state).nr_shards,
    ;
}

/// A built-in step: fold each vertex's in-window degree, as a delta, into
/// one accumulator under the vertex's own id.
pub struct DegreeStep {
    pub acc: AccId,
}

impl VertexStep for DegreeStep {
    fn step(
        &self,
        g: &GraphDB,
        w: Window,
        v: u64,
        ss: usize,
        state: &mut ShuffleComputeState,
    ) -> Step {
        let d = g.degree(v, Direction::Both, w);
        let delta = if d > i64::MAX as usize {
            i64::MAX
        } else {
            d as i64
        };
        if state.slot_matches(&self.acc) {
            state.accumulate_into(ss, v, delta, &self.acc);
        }
        Step::Done
    }
}

/// The bulk-synchronous scheduler: it owns the superstep bound.
pub struct TaskRunner {
    pub max_supersteps: usize,
}

impl TaskRunner {
    pub fn new(max_supersteps: usize) -> (r: Self)
        ensures
            r.max_supersteps == max_supersteps,
    {
        TaskRunner { max_supersteps }
    }

    /// Run the computation: superstep `ss` applies step `min(ss, last)` to
    /// every vertex, in shard order and ascending local id within a shard.
    /// The run ends when every vertex votes to halt or the superstep bound
    /// is reached; the number of supersteps executed is returned, and the
    /// state stays well-formed throughout.
    pub fn run<S: VertexStep>(
        &self,
        g: &GraphDB,
        w: Window,
        steps: &Vec<S>,
        state: &mut ShuffleComputeState,
    ) -> (r: usize)
        requires
            g.wf(),
            old(state).wf(),
            steps@.len() >= 1,
        ensures
            final(state).wf(),
            r <= self.max_supersteps,
            self.max_supersteps == 0 ==> r == 0,
            self.max_supersteps >= 1 ==> 1 <= r,
    {
        let vs = g.vertices();
        let mut ss: usize = 0;
        while ss < self.max_supersteps
            invariant
                g.wf(),
                state.wf(),
                steps@.len() >= 1,
                ss <= self.max_supersteps,
            decreases self.max_supersteps - ss,
        {
            let step_idx = if ss < steps.len() {
                ss
            } else {
                steps.len() - 1
            };
            let mut all_done = true;
            let mut i: usize = 0;
            while i < vs.len()
                invariant
                    g.wf(),
                    state.wf(),
                    steps@.len() >= 1,
                    step_idx < steps@.len(),
                    i <= vs@.len(),
                decreases vs@.len() - i,
            {
                let vote = steps[step_idx].step(g, w, vs[i], ss, state);
                if vote == Step::Continue {
                    all_done = false;
                }
                i += 1;
            }
            ss += 1;
            if all_done {
                return ss;
            }
        }
        ss
    }
}

} // verus!
