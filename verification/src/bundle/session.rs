//! The wall a caller assigns to one preprocessing retry, and the policy it
//! is retried under.

use crate::clock::{Duration, Instant};
use crate::config::{ArjunBudget, ArjunSbva, RunConfig};
use crate::error::{ErrorKind, VitriError};
use vstd::prelude::*;

verus! {

/// The wall assigned by a caller to one preprocessing retry: the absolute
/// deadline that bounds the retry and whatever follows it, and the exact part
/// of that window Arjun may consume.
#[derive(Clone, Copy, Debug, PartialEq, Eq, Structural)]
pub struct RetryBudget {
    deadline: Instant,
    arjun_budget: Duration,
}

/// The sentence refusing a zero Arjun allowance.
pub open spec fn zero_window_text() -> Seq<char> {
    "a frontend retry needs a non-zero Arjun budget"@
}

impl RetryBudget {
    /// The deadline.
    pub closed spec fn spec_deadline(self) -> Instant {
        self.deadline
    }

    /// The Arjun allowance.
    pub closed spec fn spec_arjun_budget(self) -> Duration {
        self.arjun_budget
    }

    /// A non-empty retry budget ending at `deadline`. An already-expired
    /// deadline is not a malformed request; the retry is simply declined when
    /// it is attempted.
    ///
    /// # Errors
    ///
    /// [`VitriError`] of kind `config` when `arjun_budget` is zero.
    pub fn new(deadline: Instant, arjun_budget: Duration) -> (r: Result<Self, VitriError>)
        ensures
            match r {
                Ok(b) => arjun_budget.nanos() != 0 && b.spec_deadline() == deadline && b.spec_arjun_budget()
                    == arjun_budget,
                Err(e) => arjun_budget.nanos() == 0 && e.spec_kind() == ErrorKind::Config && e.text()
                    == zero_window_text(),
            },
    {
        if arjun_budget.is_zero() {
            return Err(VitriError::config("a frontend retry needs a non-zero Arjun budget"));
        }
        Ok(RetryBudget { deadline, arjun_budget })
    }

    /// The absolute deadline shared by the retry and its caller's later use
    /// of it.
    pub fn deadline(self) -> (r: Instant)
        ensures
            r == self.spec_deadline(),
    {
        self.deadline
    }

    /// The exact Arjun allowance inside [`Self::deadline`].
    pub fn arjun_budget(self) -> (r: Duration)
        ensures
            r == self.spec_arjun_budget(),
    {
        self.arjun_budget
    }
}

/// The preprocessing and vtree policy for one checkpointed retry. Each `None`
/// field inherits the primary run's setting.
#[derive(Clone, Debug, Default, PartialEq, Eq)]
pub struct FrontendRetryConfig {
    /// Override Arjun's bounded-variable-addition policy for this retry.
    pub arjun_sbva: Option<ArjunSbva>,
    /// Override the vtree specification for this retry.
    pub vtree_spec: Option<String>,
}

/// The deadline a retry runs to: the earlier of the run's own and the retry
/// budget's.
pub open spec fn retry_deadline(config: RunConfig, budget: RetryBudget) -> Instant {
    match config.deadline {
        Some(d) => if d.at() <= budget.spec_deadline().at() { d } else { budget.spec_deadline() },
        None => budget.spec_deadline(),
    }
}

/// The configuration a checkpointed retry runs under, or `None` when its
/// deadline has already passed at `now`: the primary configuration with the
/// earlier of the run's and the retry budget's deadlines, the retry's exact
/// Arjun allowance, and the retry's own vtree spec and bounded variable
/// addition policy wherever it names them.
pub fn retry_config(config: &RunConfig, budget: RetryBudget, retry: &FrontendRetryConfig, now: Instant) -> (r: Option<RunConfig>)
    ensures
        r is None <==> retry_deadline(*config, budget).at() <= now.at(),
        r matches Some(c) ==> c == (RunConfig {
            deadline: Some(retry_deadline(*config, budget)),
            arjun_budget: ArjunBudget::Exact(budget.spec_arjun_budget()),
            vtree_spec: c.vtree_spec,
            arjun_sbva: match retry.arjun_sbva {
                Some(s) => s,
                None => config.arjun_sbva,
            },
            ..*config
        }),
        r matches Some(c) ==> c.vtree_spec@ == match retry.vtree_spec {
            Some(v) => v@,
            None => config.vtree_spec@,
        },
{
    let deadline = match config.deadline {
        Some(d) => d.earlier(budget.deadline()),
        None => budget.deadline(),
    };
    proof {
        deadline.lemma_at_determines(retry_deadline(*config, budget));
    }
    if deadline.not_before(now) && !now.not_before(deadline) {
        let vtree_spec = match &retry.vtree_spec {
            Some(v) => v.clone(),
            None => config.vtree_spec.clone(),
        };
        let arjun_sbva = match retry.arjun_sbva {
            Some(s) => s,
            None => config.arjun_sbva,
        };
        Some(RunConfig {
            budget_ms: config.budget_ms,
            deadline: Some(deadline),
            preprocess_clock: config.preprocess_clock,
            arjun_budget: ArjunBudget::Exact(budget.arjun_budget()),
            arjun_clause_growth: config.arjun_clause_growth,
            projection_policy: config.projection_policy,
            construction_budget: config.construction_budget,
            vtree_spec,
            stages: config.stages,
            simplify: config.simplify,
            components: config.components,
            candidates: config.candidates,
            mode: config.mode,
            retain_arjun_input: config.retain_arjun_input,
            arjun_sbva,
        })
    } else {
        None
    }
}

/// The sentence refusing a second preparation of a session.
pub open spec fn prepare_twice_text() -> Seq<char> {
    "FrontendSession::prepare may be called at most once"@
}

/// The sentence refusing a retry before the primary preparation.
pub open spec fn retry_first_text() -> Seq<char> {
    "FrontendSession::retry requires a completed primary prepare"@
}

/// Where a frontend session stands in its protocol: one primary preparation,
/// attempted at most once, then any number of retries from its checkpoint.
/// An attempted preparation consumes the session even when a phase of it
/// fails: replaying preprocessing after an error would be a second attempt
/// that no policy asked for.
#[derive(Clone, Copy, Debug, PartialEq, Eq, Structural)]
pub struct SessionGate {
    prepared: bool,
}

impl SessionGate {
    /// Whether the primary preparation has been attempted.
    pub closed spec fn is_prepared(self) -> bool {
        self.prepared
    }

    /// A session not yet prepared.
    pub fn new() -> (r: Self)
        ensures
            !r.is_prepared(),
    {
        SessionGate { prepared: false }
    }

    /// Whether the primary preparation has been attempted.
    pub fn prepared(&self) -> (r: bool)
        ensures
            r == self.is_prepared(),
    {
        self.prepared
    }

    /// Admits the primary preparation once: the first call succeeds and
    /// marks the session prepared; every later one is refused.
    ///
    /// # Errors
    ///
    /// [`VitriError`] of kind `config` when the session was prepared before.
    pub fn begin_prepare(&mut self) -> (r: Result<(), VitriError>)
        ensures
            final(self).is_prepared(),
            r is Ok <==> !old(self).is_prepared(),
            r is Err ==> r->Err_0.spec_kind() == ErrorKind::Config && r->Err_0.text() == prepare_twice_text(),
    {
        if self.prepared {
            return Err(VitriError::config("FrontendSession::prepare may be called at most once"));
        }
        self.prepared = true;
        Ok(())
    }

    /// Admits a retry once the primary preparation has been attempted.
    ///
    /// # Errors
    ///
    /// [`VitriError`] of kind `config` before the primary preparation.
    pub fn check_retry(&self) -> (r: Result<(), VitriError>)
        ensures
            r is Ok <==> self.is_prepared(),
            r is Err ==> r->Err_0.spec_kind() == ErrorKind::Config && r->Err_0.text() == retry_first_text(),
    {
        if !self.prepared {
            return Err(VitriError::config("FrontendSession::retry requires a completed primary prepare"));
        }
        Ok(())
    }
}

} // verus!
