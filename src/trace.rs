//! The recursion of the radiance estimator as a state machine: a path may
//! bounce a bounded number of times; a miss ends it in the sky, a spent budget
//! ends it black. The caller tests rays against the world and scatters them.

use vstd::prelude::*;

verus! {

/// What a traced path ends in: black once the bounce budget is spent, or the
/// sky seen after `bounces` diffuse bounces, each of which halves it.
#[derive(Debug, Clone, Copy, PartialEq, Eq, Structural)]
pub enum Outcome {
    Black,
    Sky { bounces: u8 },
}

/// What the tracer asks for next: a test of the current ray against the
/// world, or nothing more because the path is done.
#[derive(Debug, Clone, Copy, PartialEq, Eq, Structural)]
pub enum Step {
    Probe,
    Done(Outcome),
}

/// Bookkeeping of one path through the scene: the recursion budget it started
/// with and the bounces taken so far.
#[derive(Debug, Clone, Copy, PartialEq, Eq, Structural)]
pub struct Tracer {
    pub budget: u8,
    pub bounces: u8,
}

impl Tracer {
    pub open spec fn wf(&self) -> bool {
        self.bounces <= self.budget
    }

    /// Bounces still allowed before the path turns black.
    pub open spec fn remaining(&self) -> nat {
        (self.budget - self.bounces) as nat
    }

    /// A path that may bounce `depth` times.
    pub fn new(depth: u8) -> (r: Tracer)
        ensures
            r.wf(),
            r.budget == depth,
            r.bounces == 0,
    {
        Tracer { budget: depth, bounces: 0 }
    }

    /// With no budget left the path is black, whatever the ray and the world;
    /// otherwise the current ray must be tested against the world.
    pub fn step(&self) -> (r: Step)
        requires
            self.wf(),
        ensures
            self.remaining() == 0 ==> r == Step::Done(Outcome::Black),
            self.remaining() > 0 ==> r == Step::Probe,
    {
        if self.bounces == self.budget {
            Step::Done(Outcome::Black)
        } else {
            Step::Probe
        }
    }

    /// Takes the result of a probe. A miss ends the path in the sky; a hit
    /// spends one bounce and the path goes on from the hit point.
    pub fn record(&mut self, hit: bool) -> (r: Option<Outcome>)
        requires
            old(self).wf(),
            old(self).remaining() > 0,
        ensures
            final(self).wf(),
            final(self).budget == old(self).budget,
            hit ==> r is None && final(self).bounces == old(self).bounces + 1,
            !hit ==> r == Some(Outcome::Sky { bounces: old(self).bounces })
                && final(self).bounces == old(self).bounces,
    {
        if hit {
            self.bounces = self.bounces + 1;
            None
        } else {
            Some(Outcome::Sky { bounces: self.bounces })
        }
    }
}

/// An outcome seen through `k` more bounces.
pub open spec fn through(o: Outcome, k: nat) -> Outcome {
    match o {
        Outcome::Black => Outcome::Black,
        Outcome::Sky { bounces } => Outcome::Sky { bounces: (bounces + k) as u8 },
    }
}

/// How the recursive evaluator ends a path with recursion budget `depth`,
/// where `probes[k]` tells whether the `k`-th ray of the path hits the world:
/// black with no budget, the sky on a miss, else the path of the bounced ray
/// with one bounce more.
pub open spec fn recursive_outcome(depth: nat, probes: Seq<bool>) -> Outcome
    decreases depth,
{
    if depth == 0 {
        Outcome::Black
    } else if !probes[0] {
        Outcome::Sky { bounces: 0 }
    } else {
        through(recursive_outcome((depth - 1) as nat, probes.drop_first()), 1)
    }
}

/// How a tracer ends a path when `step` and `record` are called in turn,
/// with `probes` as the probe results.
pub open spec fn driven_outcome(t: Tracer, probes: Seq<bool>) -> Outcome
    decreases t.remaining(),
{
    if !t.wf() || t.remaining() == 0 {
        Outcome::Black
    } else if !probes[0] {
        Outcome::Sky { bounces: t.bounces }
    } else {
        driven_outcome(Tracer { bounces: (t.bounces + 1) as u8, ..t }, probes.drop_first())
    }
}

/// A tracer that has taken `bounces` bounces ends its path as the recursive
/// evaluator does with the budget left, seen through those bounces.
pub proof fn lemma_driven_is_recursive(t: Tracer, probes: Seq<bool>)
    requires
        t.wf(),
        probes.len() >= t.remaining(),
    ensures
        driven_outcome(t, probes) == through(recursive_outcome(t.remaining(), probes), t.bounces as nat),
        recursive_outcome(t.remaining(), probes) matches Outcome::Sky { bounces } ==> bounces < t.remaining(),
    decreases t.remaining(),
{
    if t.remaining() > 0 && probes[0] {
        let next = Tracer { bounces: (t.bounces + 1) as u8, ..t };
        lemma_driven_is_recursive(next, probes.drop_first());
    }
}

/// Tracing step by step ends a path as the recursive evaluator does, for
/// every budget and every run of probe results long enough to spend it.
pub proof fn lemma_loop_matches_recursion(depth: u8, probes: Seq<bool>)
    requires
        probes.len() >= depth,
    ensures
        driven_outcome(Tracer { budget: depth, bounces: 0 }, probes)
            == recursive_outcome(depth as nat, probes),
{
    let t = Tracer { budget: depth, bounces: 0 };
    lemma_driven_is_recursive(t, probes);
    match recursive_outcome(depth as nat, probes) {
        Outcome::Black => {},
        Outcome::Sky { bounces } => {},
    }
}

} // verus!
