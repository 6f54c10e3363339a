//! How much of what a run has left vtree construction may spend.

use super::RunConfig;
use crate::budget::{share_end, vtree_share_deadline};
use crate::clock::{ms_nanos, Instant};
use vstd::prelude::*;

verus! {

/// How much of what the run has left vtree construction may spend, or how
/// much work it may do.
#[derive(Debug, Clone, Copy, PartialEq, Eq, Structural, Default)]
#[non_exhaustive]
pub enum ConstructionBudget {
    /// A share of what is left: a third, held between ninety seconds and
    /// fifteen minutes, never past the run's deadline.
    #[default]
    Share,
    /// All of what is left.
    WholeRemaining,
    /// Until this instant, and never past the run's deadline.
    Until(Instant),
    /// A number of work units, for a reproducible construction.
    Deterministic {
        /// The work construction may do.
        units: u64,
    },
}

/// The instant a run that ends at the nanosecond `deadline` names, or
/// counts `budget_ms` forward from `now` to, or `None` when it has no cutoff.
pub open spec fn run_deadline_at(c: RunConfig, now: Instant) -> Option<int> {
    match c.deadline {
        Some(d) => Some(d.at() as int),
        None => match c.budget_ms {
            Some(ms) => Some(now.at() + ms * ms_nanos()),
            None => None,
        },
    }
}

impl RunConfig {
    /// The instant vtree construction will stop at when it starts at `now`:
    /// the run's deadline ([`RunConfig::resolved_deadline`]) narrowed by
    /// [`RunConfig::construction_budget`]. `None` when the run has no cutoff
    /// and the policy names none of its own.
    ///
    /// - [`ConstructionBudget::Share`]: the share of what is left at `now`
    ///   (a third, held between ninety seconds and fifteen minutes), never
    ///   past the run's deadline.
    /// - [`ConstructionBudget::WholeRemaining`]: the run's deadline.
    /// - [`ConstructionBudget::Until`]: that instant or the run's deadline,
    ///   whichever is sooner.
    /// - [`ConstructionBudget::Deterministic`]: `meter_deadline`, the instant
    ///   the construction meter sets for the budget's work units when armed
    ///   at `now`, whether or not the run has a deadline. The meter's
    ///   conversion from work to time is its own.
    pub fn construction_deadline(&self, now: Instant, meter_deadline: Option<Instant>) -> (r: Option<Instant>)
        requires
            match self.budget_ms {
                Some(ms) => now.at() + ms * ms_nanos() <= u128::MAX,
                None => true,
            },
        ensures
            match self.construction_budget {
                ConstructionBudget::Deterministic { .. } => r == meter_deadline,
                ConstructionBudget::Share => match run_deadline_at(*self, now) {
                    Some(d) => r is Some && r->Some_0.at() == share_end(d, now.at() as int),
                    None => r is None,
                },
                ConstructionBudget::WholeRemaining => match run_deadline_at(*self, now) {
                    Some(d) => r is Some && r->Some_0.at() == d,
                    None => r is None,
                },
                ConstructionBudget::Until(t) => match run_deadline_at(*self, now) {
                    Some(d) => r is Some && r->Some_0.at() == if t.at() <= d {
                        t.at() as int
                    } else {
                        d
                    },
                    None => r is None,
                },
            },
    {
        match self.construction_budget {
            ConstructionBudget::Deterministic { .. } => meter_deadline,
            ConstructionBudget::Share => match self.resolved_deadline(now) {
                Some(d) => Some(vtree_share_deadline(d, now)),
                None => None,
            },
            ConstructionBudget::WholeRemaining => self.resolved_deadline(now),
            ConstructionBudget::Until(t) => match self.resolved_deadline(now) {
                Some(d) => Some(t.earlier(d)),
                None => None,
            },
        }
    }
}

} // verus!
