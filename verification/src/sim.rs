use vstd::prelude::*;

verus! {

use crate::config::SimConfig;
use crate::integrate::{step_rel, update_nodes_vec};
use crate::node::{Node, all_wf, check_all_wf};
use crate::spawn::{SpawnJitter, appended, random_jitter, spawn};

/// One running simulation: the particle set it exclusively owns, the fixed
/// configuration, and a frame counter.
pub struct Simulation {
    /// The live particle set; mutated only by the spawner (append) and the
    /// integrator (update in place).
    pub nodes: Vec<Node>,
    /// The constants of the run.
    pub cfg: SimConfig,
    /// Frames stepped so far.
    pub frames: u64,
}

impl Simulation {
    /// The structural invariant every step preserves: an admissible
    /// configuration, and a population within the cap.
    pub open spec fn wf(self) -> bool {
        &&& self.cfg.wf()
        &&& self.nodes.len() <= self.cfg.cap
    }

    /// An empty simulation under the given configuration.
    pub fn new(cfg: SimConfig) -> (s: Simulation)
        requires
            cfg.wf(),
        ensures
            s.nodes@ == Seq::<Node>::empty(),
            s.cfg == cfg,
            s.frames == 0,
            s.wf(),
    {
        Simulation { nodes: Vec::new(), cfg, frames: 0 }
    }

    /// Whether every body is within the engine's bounds, so the next step
    /// is free of overflow. A caller finding the state out of bounds must
    /// treat the run as failed rather than keep stepping — mirroring the
    /// rule that an arithmetic fault in the force stage is fatal.
    pub fn state_in_bounds(&self) -> (r: bool)
        ensures
            r == all_wf(self.nodes@),
    {
        check_all_wf(&self.nodes)
    }

    /// One frame: spawn under the cap, compute every net force from an
    /// immutable snapshot of the spawned state, integrate sequentially,
    /// and count the frame.
    ///
    /// The population cap holds afterwards whatever the history: a set
    /// within its cap stays within it.
    pub fn step(&mut self, jit: &SpawnJitter)
        requires
            old(self).wf(),
            jit.wf(),
            all_wf(old(self).nodes@),
            old(self).frames < u64::MAX,
        ensures
            final(self).cfg == old(self).cfg,
            final(self).frames == old(self).frames + 1,
            final(self).wf(),
            final(self).nodes@.len() == old(self).nodes@.len() + appended(
                old(self).nodes@.len() as int,
                old(self).cfg.cap as int,
                *jit,
            ).len(),
            step_rel(
                old(self).nodes@ + appended(
                    old(self).nodes@.len() as int,
                    old(self).cfg.cap as int,
                    *jit,
                ),
                final(self).nodes@,
                old(self).cfg,
            ),
    {
        spawn(&mut self.nodes, &self.cfg, jit);
        update_nodes_vec(&mut self.nodes, &self.cfg);
        self.frames = self.frames + 1;
    }

    /// One frame with fresh random jitter on the emission positions, as
    /// the frame loop runs it. Whatever the jitter came out as, the frame
    /// followed [`Simulation::step`] for some admissible jitter.
    pub fn step_random(&mut self)
        requires
            old(self).wf(),
            all_wf(old(self).nodes@),
            old(self).frames < u64::MAX,
        ensures
            final(self).cfg == old(self).cfg,
            final(self).frames == old(self).frames + 1,
            final(self).wf(),
            exists|jit: SpawnJitter|
                #![auto]
                jit.wf() && final(self).nodes@.len() == old(self).nodes@.len() + appended(
                    old(self).nodes@.len() as int,
                    old(self).cfg.cap as int,
                    jit,
                ).len() && step_rel(
                    old(self).nodes@ + appended(
                        old(self).nodes@.len() as int,
                        old(self).cfg.cap as int,
                        jit,
                    ),
                    final(self).nodes@,
                    old(self).cfg,
                ),
    {
        let jit = SpawnJitter {
            x0: random_jitter(),
            y0: random_jitter(),
            x1: random_jitter(),
            y1: random_jitter(),
        };
        self.step(&jit);
        proof {
            assert(jit.wf() && self.nodes@.len() == old(self).nodes@.len() + appended(
                old(self).nodes@.len() as int,
                old(self).cfg.cap as int,
                jit,
            ).len() && step_rel(
                old(self).nodes@ + appended(
                    old(self).nodes@.len() as int,
                    old(self).cfg.cap as int,
                    jit,
                ),
                self.nodes@,
                old(self).cfg,
            ));
        }
    }
}

} // verus!
