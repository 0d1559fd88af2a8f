//! The stopping rule of the gradient-descent loop.
//!
//! Each iteration of the loop computes the updates `(d0, d1)` of the two
//! parameters; whether both lie within the precision limit is the one fact of
//! an iteration that the rule reads. The loop asks `is_done` before every
//! iteration and reports each finished iteration with `record`.
use vstd::prelude::*;

verus! {

/// When the fitting loop stops.
#[derive(Clone, Copy, Debug, PartialEq, Eq)]
pub enum StopRule {
    /// After exactly this many iterations, whatever the updates were.
    Iterations(usize),
    /// After the first iteration whose two updates both lie within the
    /// precision limit; the loop runs at least once.
    Precision,
}

/// Whether a loop under `rule` is done after `iterations` iterations, the
/// last of which had both updates within the limit when `converged` holds.
pub open spec fn done_spec(rule: StopRule, iterations: nat, converged: bool) -> bool {
    match rule {
        StopRule::Iterations(n) => iterations >= n,
        StopRule::Precision => iterations > 0 && converged,
    }
}

/// Whether the loop is done after `i` iterations, where `within[k]` tells
/// whether the updates of iteration `k` (from zero) were within the limit.
pub open spec fn done_after(rule: StopRule, within: Seq<bool>, i: nat) -> bool {
    done_spec(rule, i, i > 0 && within[i - 1])
}

/// The state of a fitting loop as its stopping rule sees it.
#[derive(Clone, Copy, Debug, PartialEq, Eq)]
pub struct FitProgress {
    pub rule: StopRule,
    /// Iterations finished so far.
    pub iterations: usize,
    /// Whether both updates of the last iteration were within the limit.
    pub converged: bool,
}

impl FitProgress {
    /// A loop that has not started.
    pub fn new(rule: StopRule) -> (p: FitProgress)
        ensures
            p.rule == rule,
            p.iterations == 0,
            !p.converged,
    {
        FitProgress { rule, iterations: 0, converged: false }
    }

    /// Whether the loop stops before another iteration.
    pub fn is_done(&self) -> (r: bool)
        ensures
            r == done_spec(self.rule, self.iterations as nat, self.converged),
    {
        match self.rule {
            StopRule::Iterations(n) => self.iterations >= n,
            StopRule::Precision => self.iterations > 0 && self.converged,
        }
    }

    /// Records a finished iteration and whether both of its updates were
    /// within the limit.
    pub fn record(&mut self, within_limit: bool)
        requires
            old(self).iterations < usize::MAX,
        ensures
            final(self).rule == old(self).rule,
            final(self).iterations == old(self).iterations + 1,
            final(self).converged == within_limit,
    {
        self.iterations = self.iterations + 1;
        self.converged = within_limit;
    }
}

/// Under an iteration limit the loop stops after exactly that many
/// iterations, whatever the updates of those iterations were.
pub proof fn lemma_iteration_limit_exact(n: usize, within: Seq<bool>)
    ensures
        done_after(StopRule::Iterations(n), within, n as nat),
        forall|i: nat| i < n ==> !done_after(StopRule::Iterations(n), within, i),
{
}

/// Under the precision rule the loop stops after the first iteration whose
/// two updates are both within the limit, and not before.
pub proof fn lemma_precision_first_within(within: Seq<bool>, j: nat)
    requires
        j < within.len(),
        within[j as int],
        forall|k: int| 0 <= k < j ==> !within[k],
    ensures
        done_after(StopRule::Precision, within, j + 1),
        forall|i: nat| i <= j ==> !done_after(StopRule::Precision, within, i),
{
}

} // verus!
