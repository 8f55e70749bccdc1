//! The decisions of the optimisation loop that do not depend on real arithmetic:
//! when a run stops early, when the adaptive variant raises its inertia weight, and
//! when a run reports its progress.

use vstd::prelude::*;

verus! {

/// Early stopping on stagnation: the number of consecutive iterations whose metric
/// changed by less than the threshold, and whether there was a previous iteration.
pub struct StopRule {
    pub stagnation_limit: usize,
    pub stagnation_count: usize,
    pub has_previous: bool,
}

impl StopRule {
    /// No iteration seen yet.
    pub fn new(stagnation_limit: usize) -> (r: Self)
        ensures
            r.stagnation_limit == stagnation_limit,
            r.stagnation_count == 0,
            !r.has_previous,
    {
        StopRule { stagnation_limit, stagnation_count: 0, has_previous: false }
    }

    /// Records an iteration whose metric changed by less than the threshold from the
    /// previous one (`small_change`): the count grows by one (it cannot pass the
    /// largest `usize`), and any other change resets it. The first iteration has
    /// nothing to compare with and leaves it.
    pub fn record(&mut self, small_change: bool)
        ensures
            final(self).stagnation_limit == old(self).stagnation_limit,
            final(self).has_previous,
            final(self).stagnation_count == (if !old(self).has_previous {
                old(self).stagnation_count as int
            } else if small_change {
                if old(self).stagnation_count < usize::MAX {
                    old(self).stagnation_count + 1
                } else {
                    old(self).stagnation_count as int
                }
            } else {
                0
            }),
    {
        if self.has_previous {
            if small_change {
                self.stagnation_count = self.stagnation_count.saturating_add(1);
            } else {
                self.stagnation_count = 0;
            }
        }
        self.has_previous = true;
    }

    /// The metric has stagnated for as many iterations as the limit allows.
    pub fn stagnated(&self) -> (r: bool)
        ensures
            r == (self.stagnation_count >= self.stagnation_limit),
    {
        self.stagnation_count >= self.stagnation_limit
    }
}

/// Whether the run stops after iteration `iter` (counted from 0), and then the number
/// of iterations done: when the caller asks it to stop, or when it has stagnated.
pub fn stop_after(iter: usize, keep_going: bool, stagnated: bool) -> (r: Option<usize>)
    requires
        iter < usize::MAX,
    ensures
        r == (if !keep_going || stagnated { Some((iter + 1) as usize) } else { None }),
{
    if !keep_going {
        Some(iter + 1)
    } else if stagnated {
        Some(iter + 1)
    } else {
        None
    }
}

/// How the adaptive variant moves its inertia weight after an iteration.
#[derive(Debug, Clone, Copy, PartialEq, Eq, Structural)]
pub enum InertiaStep {
    Raise,
    Lower,
}

/// The adaptive variant's count of iterations in a row without a gain in
/// hypervolume.
pub struct AdaptiveInertia {
    pub no_improve_count: usize,
}

impl AdaptiveInertia {
    /// No iteration seen yet.
    pub fn new() -> (r: Self)
        ensures
            r.no_improve_count == 0,
    {
        AdaptiveInertia { no_improve_count: 0 }
    }

    /// Records whether the hypervolume grew in this iteration (beyond the tolerance),
    /// and says how the weight moves: up after more than ten iterations in a row
    /// without a gain, down otherwise. The count cannot pass the largest `usize`.
    pub fn record(&mut self, improved: bool) -> (r: InertiaStep)
        ensures
            final(self).no_improve_count == (if improved {
                0
            } else if old(self).no_improve_count < usize::MAX {
                old(self).no_improve_count + 1
            } else {
                old(self).no_improve_count as int
            }),
            r == (if final(self).no_improve_count > 10 {
                InertiaStep::Raise
            } else {
                InertiaStep::Lower
            }),
    {
        if improved {
            self.no_improve_count = 0;
        } else {
            self.no_improve_count = self.no_improve_count.saturating_add(1);
        }
        if self.no_improve_count > 10 {
            InertiaStep::Raise
        } else {
            InertiaStep::Lower
        }
    }
}

/// When a run in the terminal front end sends its progress and a snapshot of its
/// archive: the iterations at which it last did.
pub struct ProgressGate {
    pub last_progress: usize,
    pub last_snapshot: usize,
}

/// A report is due at every tenth iteration, at the last one, and once `gap`
/// iterations have passed since the last report.
pub open spec fn report_due(iter: usize, max_iter: usize, last: usize, gap: usize) -> bool {
    iter % 10 == 0 || iter == max_iter || iter - last >= gap
}

impl ProgressGate {
    /// Nothing sent yet.
    pub fn new() -> (r: Self)
        ensures
            r.last_progress == 0,
            r.last_snapshot == 0,
    {
        ProgressGate { last_progress: 0, last_snapshot: 0 }
    }

    /// Iteration `iter` of `max_iter` is done: whether to send the progress (due
    /// after 5 iterations without one) and whether to send a snapshot (due after 10),
    /// remembering what is sent.
    pub fn on_iteration(&mut self, iter: usize, max_iter: usize) -> (r: (bool, bool))
        requires
            old(self).last_progress <= iter,
            old(self).last_snapshot <= iter,
        ensures
            r.0 == report_due(iter, max_iter, old(self).last_progress, 5),
            r.1 == report_due(iter, max_iter, old(self).last_snapshot, 10),
            final(self).last_progress == (if r.0 { iter } else { old(self).last_progress }),
            final(self).last_snapshot == (if r.1 { iter } else { old(self).last_snapshot }),
    {
        let progress = iter % 10 == 0 || iter == max_iter || iter - self.last_progress >= 5;
        if progress {
            self.last_progress = iter;
        }
        let snapshot = iter % 10 == 0 || iter == max_iter || iter - self.last_snapshot >= 10;
        if snapshot {
            self.last_snapshot = iter;
        }
        (progress, snapshot)
    }
}

/// Whether the command line reports progress after iteration `iter` of `max_iter`:
/// every `interval` iterations and at the last one.
pub fn cli_report_due(iter: usize, max_iter: usize, interval: usize) -> (r: bool)
    requires
        interval > 0,
    ensures
        r == (iter % interval == 0 || iter == max_iter),
{
    iter % interval == 0 || iter == max_iter
}

} // verus!
