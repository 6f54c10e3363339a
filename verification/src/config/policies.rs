//! The policy types a [`super::RunConfig`] is assembled from.

use crate::clock::Duration;
use crate::cnf::Mode;
use crate::text::same_text;
use vstd::prelude::*;

verus! {

/// Whether a formula's components each get their own vtree, or one vtree spans
/// all of them.
#[derive(Debug, Clone, Copy, PartialEq, Eq, Structural)]
pub enum ComponentPolicy {
    /// One vtree per component, grafted together.
    Split,
    /// One vtree over the whole formula.
    Whole,
}

/// The token naming a component policy.
pub open spec fn component_token(p: ComponentPolicy) -> Seq<char> {
    match p {
        ComponentPolicy::Split => "split"@,
        ComponentPolicy::Whole => "whole"@,
    }
}

/// Reading a policy's token back recovers the policy: [`ComponentPolicy::parse`]
/// is the exact inverse of [`ComponentPolicy::token`].
pub proof fn lemma_component_token_round_trip(p: ComponentPolicy)
    ensures
        (if component_token(p) == "split"@ {
            Some(ComponentPolicy::Split)
        } else if component_token(p) == "whole"@ {
            Some(ComponentPolicy::Whole)
        } else {
            None
        }) == Some(p),
{
    reveal_strlit("split");
    reveal_strlit("whole");
    assert("split"@[0] != "whole"@[0]);
}

impl ComponentPolicy {
    /// The token naming this policy, the inverse of [`Self::parse`].
    pub fn token(self) -> (r: &'static str)
        ensures
            r@ == component_token(self),
    {
        match self {
            ComponentPolicy::Split => "split",
            ComponentPolicy::Whole => "whole",
        }
    }

    /// The policy a token names, if any.
    pub fn parse(token: &str) -> (r: Option<Self>)
        ensures
            r == (if token@ == "split"@ {
                Some(ComponentPolicy::Split)
            } else if token@ == "whole"@ {
                Some(ComponentPolicy::Whole)
            } else {
                None
            }),
    {
        if same_text(token, "split") {
            Some(ComponentPolicy::Split)
        } else if same_text(token, "whole") {
            Some(ComponentPolicy::Whole)
        } else {
            None
        }
    }

    /// Every policy token, in table order.
    pub fn names() -> (r: Vec<&'static str>)
        ensures
            r@.len() == 2,
            r@[0]@ == component_token(ComponentPolicy::Split),
            r@[1]@ == component_token(ComponentPolicy::Whole),
    {
        let mut v: Vec<&'static str> = Vec::new();
        v.push(ComponentPolicy::Split.token());
        v.push(ComponentPolicy::Whole.token());
        v
    }

    /// Whether one vtree spans the whole formula.
    pub fn is_whole(self) -> (r: bool)
        ensures
            r == (self == ComponentPolicy::Whole),
    {
        matches!(self, ComponentPolicy::Whole)
    }
}

/// Which preprocessing stages run before the vtree is built.
#[derive(Debug, Clone, Copy, PartialEq, Eq, Structural)]
pub struct PreprocessStages {
    /// The simplify chain: backbone, equivalences, elimination.
    pub simplify: bool,
    /// The Arjun stage.
    pub arjun: bool,
}

impl PreprocessStages {
    /// Every stage on.
    pub fn all_on() -> (r: Self)
        ensures
            r.simplify && r.arjun,
    {
        PreprocessStages { simplify: true, arjun: true }
    }

    /// The stages `mode`'s preprocessing runs.
    pub fn read_under(mode: Mode) -> (r: Self)
        ensures
            r == chain_stages(chain_for(mode)),
    {
        Chain::for_mode(mode).stages_read()
    }
}

/// The elimination pass's rounds and budget.
#[derive(Debug, Clone, Copy, PartialEq, Eq, Structural)]
pub struct DvePolicy {
    /// How many rounds may run.
    pub rounds: usize,
    /// What they may spend, in milliseconds.
    pub budget_ms: u64,
}

impl DvePolicy {
    /// Thirty rounds within three seconds.
    pub fn standard() -> (r: Self)
        ensures
            r.rounds == 30,
            r.budget_ms == 3_000,
    {
        DvePolicy { rounds: 30, budget_ms: 3_000 }
    }
}

/// The clock preprocessing's budget decisions read.
#[derive(Debug, Clone, Copy, PartialEq, Eq, Structural, Default)]
pub enum PreprocessClock {
    /// The wall clock.
    #[default]
    WallClock,
    /// Work units, for reproducible preprocessing.
    Deterministic {
        /// The wall the units were converted from, in milliseconds.
        configured_wall_ms: Option<u64>,
    },
}

/// Budgets and optional count-only work for the simplify stage.
#[derive(Debug, Clone, Copy, PartialEq, Eq, Structural)]
pub struct SimplifyPolicy {
    /// The backbone probe's budget in milliseconds, `None` for no backbone.
    pub backbone_budget_ms: Option<u64>,
    /// The equivalence probe's budget in milliseconds.
    pub equivalence_budget_ms: Option<u64>,
    /// Whether gates are detected (count-only).
    pub detect_gates: bool,
    /// The elimination pass (count-only), `None` for none.
    pub dve: Option<DvePolicy>,
}

impl SimplifyPolicy {
    /// The default policy: a five-minute backbone, a 300 ms equivalence
    /// probe, gate detection, and the standard elimination pass.
    pub fn standard() -> (r: Self)
        ensures
            r.backbone_budget_ms == Some(300_000u64),
            r.equivalence_budget_ms == Some(300u64),
            r.detect_gates,
            r.dve == Some(DvePolicy { rounds: 30, budget_ms: 3_000 }),
    {
        SimplifyPolicy {
            backbone_budget_ms: Some(300_000),
            equivalence_budget_ms: Some(300),
            detect_gates: true,
            dve: Some(DvePolicy::standard()),
        }
    }

    /// Whether this policy changes one of the count-only knobs.
    pub fn customizes_count_only(self) -> (r: bool)
        ensures
            r == (!self.detect_gates || self.dve != Some(DvePolicy { rounds: 30, budget_ms: 3_000 })),
    {
        let standard = Self::standard();
        self.detect_gates != standard.detect_gates || self.dve != standard.dve
    }
}

/// How much wall-clock time the Arjun stage may spend.
#[derive(Debug, Clone, Copy, PartialEq, Eq, Structural, Default)]
pub enum ArjunBudget {
    /// A share of the run budget.
    #[default]
    Derived,
    /// Exactly this long, clamped only to the run's deadline.
    Exact(Duration),
}

/// Whether a sound Arjun result may be kept when it grew the clause count.
#[derive(Debug, Clone, Copy, PartialEq, Eq, Structural, Default)]
#[non_exhaustive]
pub enum ArjunClauseGrowth {
    /// Discard a result with more clauses than the formula handed to Arjun.
    #[default]
    Reject,
    /// Keep such a result; no other discard is bypassed.
    KeepSound,
    /// Discard a result with more clauses than this baseline.
    RejectAgainst(usize),
}

impl ArjunClauseGrowth {
    /// Whether the policy needs the count-preserving Arjun stage.
    pub fn requires_count_arjun(self) -> (r: bool)
        ensures
            r == !(self == ArjunClauseGrowth::Reject),
    {
        !matches!(self, ArjunClauseGrowth::Reject)
    }

    /// The clause count a reduction must not exceed, given the formula handed
    /// to Arjun had `input_clauses`.
    pub fn clause_count_baseline(self, input_clauses: usize) -> (r: usize)
        ensures
            r == match self {
                ArjunClauseGrowth::RejectAgainst(b) => b,
                _ => input_clauses,
            },
    {
        match self {
            ArjunClauseGrowth::Reject | ArjunClauseGrowth::KeepSound => input_clauses,
            ArjunClauseGrowth::RejectAgainst(baseline) => baseline,
        }
    }
}

/// What the projected Arjun stage does with a sound result that did not
/// minimize the projection.
#[derive(Debug, Clone, Copy, PartialEq, Eq, Structural, Default)]
pub enum ProjectionNoGain {
    /// Discard it.
    #[default]
    Reject,
    /// Keep it.
    KeepSound,
}

/// How much of the projection-preserving chain runs.
#[derive(Debug, Clone, Copy, PartialEq, Eq, Structural, Default)]
pub enum ProjectionPolicy {
    /// The whole chain.
    #[default]
    Full,
    /// Arjun alone, with what to do when it gains nothing.
    ArjunOnly(ProjectionNoGain),
}

/// Whether Arjun runs with bounded variable addition.
#[derive(Debug, Clone, Copy, PartialEq, Eq, Structural, Default)]
pub enum ArjunSbva {
    /// Bounded variable addition runs.
    #[default]
    On,
    /// It does not.
    Off,
}

/// The preprocessing chain a mode runs.
#[derive(Debug, Clone, Copy, PartialEq, Eq, Structural)]
pub enum Chain {
    /// Count-preserving (`mc`, `wmc`).
    Count,
    /// Projection-preserving (`pmc`, `pwmc`).
    Projection,
    /// Function-preserving (`compile`).
    Compile,
}

/// The chain a mode runs.
pub open spec fn chain_for(mode: Mode) -> Chain {
    match mode {
        Mode::Mc | Mode::Wmc => Chain::Count,
        Mode::Pmc | Mode::Pwmc => Chain::Projection,
        Mode::Compile => Chain::Compile,
    }
}

/// The stages a chain has.
pub open spec fn chain_stages(c: Chain) -> PreprocessStages {
    match c {
        Chain::Count => PreprocessStages { simplify: true, arjun: true },
        Chain::Projection => PreprocessStages { simplify: false, arjun: true },
        Chain::Compile => PreprocessStages { simplify: true, arjun: false },
    }
}

impl Chain {
    /// The chain `mode` runs.
    pub fn for_mode(mode: Mode) -> (r: Self)
        ensures
            r == chain_for(mode),
    {
        match mode {
            Mode::Mc | Mode::Wmc => Chain::Count,
            Mode::Pmc | Mode::Pwmc => Chain::Projection,
            Mode::Compile => Chain::Compile,
        }
    }

    /// The stages this chain has.
    pub fn stages_read(self) -> (r: PreprocessStages)
        ensures
            r == chain_stages(self),
    {
        match self {
            Chain::Count => PreprocessStages { simplify: true, arjun: true },
            Chain::Projection => PreprocessStages { simplify: false, arjun: true },
            Chain::Compile => PreprocessStages { simplify: true, arjun: false },
        }
    }
}

impl Default for PreprocessStages {
    /// Every stage on.
    fn default() -> (r: Self)
        ensures
            r.simplify && r.arjun,
    {
        PreprocessStages::all_on()
    }
}

impl Default for DvePolicy {
    /// Thirty rounds within three seconds.
    fn default() -> (r: Self)
        ensures
            r.rounds == 30,
            r.budget_ms == 3_000,
    {
        DvePolicy::standard()
    }
}

impl Default for SimplifyPolicy {
    /// The standard policy.
    fn default() -> (r: Self)
        ensures
            r == (SimplifyPolicy {
                backbone_budget_ms: Some(300_000u64),
                equivalence_budget_ms: Some(300u64),
                detect_gates: true,
                dve: Some(DvePolicy { rounds: 30, budget_ms: 3_000 }),
            }),
    {
        SimplifyPolicy::standard()
    }
}

} // verus!
