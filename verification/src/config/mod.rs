//! [`RunConfig`] — the explicit, call-site-visible configuration for this
//! crate's entry points.
//!
//! `budget_ms` is the run-wide budget input. Every site that scales a
//! sub-budget from it is handed [`RunConfig::effective_budget_ms`] as an
//! argument, so a run's budget travels with the run rather than through
//! process state.

mod construction;
pub mod policies;
pub mod validate;

pub use construction::ConstructionBudget;
pub use policies::{
    chain_for, chain_stages, component_token, ArjunBudget, ArjunClauseGrowth, ArjunSbva, Chain,
    ComponentPolicy, DvePolicy, PreprocessClock, PreprocessStages, ProjectionNoGain, ProjectionPolicy,
    SimplifyPolicy,
};

use crate::clock::{ms_nanos, Duration, Instant};
use crate::cnf::lexer::{int_in, read_int};
use crate::cnf::{CnfMeta, Mode, mode_token};
use crate::error::VitriError;
use vstd::string::StringSliceAdditionalSpecFns;
use vstd::prelude::*;

verus! {

/// The vtree spec a run builds with unless told otherwise: the scored
/// portfolio.
pub const DEFAULT_VTREE_SPEC: &'static str = "portfolio";

/// Configuration for a preprocess-and-build-a-vtree run.
///
/// [`Default`] is the production configuration: no budget limit, the
/// portfolio spec, every preprocessing stage on, per-component vtrees.
#[derive(Debug, Clone, PartialEq, Eq)]
pub struct RunConfig {
    /// Wall-clock budget for the whole run, in ms. `None` = unbounded.
    pub budget_ms: Option<u64>,
    /// An absolute deadline, which takes precedence over `budget_ms` as the
    /// cutoff. `None` = derive the deadline from `budget_ms`.
    pub deadline: Option<Instant>,
    /// The clock preprocessing's budget decisions read.
    pub preprocess_clock: PreprocessClock,
    /// How much wall-clock time the Arjun stage may spend.
    pub arjun_budget: ArjunBudget,
    /// Whether a sound Arjun result may be kept when it grew the clause count.
    pub arjun_clause_growth: ArjunClauseGrowth,
    /// How much of the projection-preserving chain runs.
    pub projection_policy: ProjectionPolicy,
    /// How much of what the run has left vtree construction may spend.
    pub construction_budget: ConstructionBudget,
    /// The vtree spec string, e.g. `portfolio`, `minfill`.
    pub vtree_spec: String,
    /// Which preprocessing stages run.
    pub stages: PreprocessStages,
    /// Budgets and optional count-only work for the simplify stage.
    pub simplify: SimplifyPolicy,
    /// Whether components each get their own vtree.
    pub components: ComponentPolicy,
    /// How many ranked vtree candidates to retain.
    pub candidates: usize,
    /// What preprocessing must preserve; `None` detects it from the headers.
    pub mode: Option<Mode>,
    /// Whether the bundle retains the formula the Arjun stage was given.
    pub retain_arjun_input: bool,
    /// Whether Arjun runs bounded variable addition.
    pub arjun_sbva: ArjunSbva,
}

impl Default for RunConfig {
    /// The production configuration.
    fn default() -> (r: Self)
        ensures
            r.budget_ms is None,
            r.simplify == crate::config::validate::standard_simplify(),
            r.deadline is None,
            r.preprocess_clock == PreprocessClock::WallClock,
            r.arjun_budget == ArjunBudget::Derived,
            r.arjun_clause_growth == ArjunClauseGrowth::Reject,
            r.projection_policy == ProjectionPolicy::Full,
            r.construction_budget == ConstructionBudget::Share,
            r.vtree_spec@ == DEFAULT_VTREE_SPEC@,
            r.stages == (PreprocessStages { simplify: true, arjun: true }),
            r.components == ComponentPolicy::Split,
            r.candidates == 1,
            r.mode is None,
            !r.retain_arjun_input,
            r.arjun_sbva == ArjunSbva::On,
    {
        RunConfig {
            budget_ms: None,
            deadline: None,
            preprocess_clock: PreprocessClock::WallClock,
            arjun_budget: ArjunBudget::Derived,
            arjun_clause_growth: ArjunClauseGrowth::Reject,
            projection_policy: ProjectionPolicy::Full,
            construction_budget: ConstructionBudget::Share,
            vtree_spec: String::from_str(DEFAULT_VTREE_SPEC),
            stages: PreprocessStages::all_on(),
            simplify: SimplifyPolicy::standard(),
            components: ComponentPolicy::Split,
            candidates: 1,
            mode: None,
            retain_arjun_input: false,
            arjun_sbva: ArjunSbva::On,
        }
    }
}

/// What [`RunConfig::resolve_mode`] settled on, plus what it had to ignore to
/// get there.
#[derive(Debug, Clone, PartialEq, Eq)]
pub struct ResolvedMode {
    /// The mode preprocessing will actually preserve.
    pub mode: Mode,
    /// One `c `-prefixed line per header declaration this mode does not use.
    pub notices: Vec<String>,
}

/// The mode a file's headers ask for: projected when it declares a show set
/// or a projected track, weighted when it declares weights or a weighted
/// track.
pub open spec fn detected_mode(meta: CnfMeta) -> Mode {
    let declares_weights = meta_mode(meta) == Mode::Wmc || meta_mode(meta) == Mode::Pwmc
        || meta.weights_spec() is Some;
    let declares_show = meta_mode(meta) == Mode::Pmc || meta_mode(meta) == Mode::Pwmc
        || meta.show_spec() is Some;
    if declares_show && declares_weights {
        Mode::Pwmc
    } else if declares_show {
        Mode::Pmc
    } else if declares_weights {
        Mode::Wmc
    } else {
        Mode::Mc
    }
}

/// Without `--mode`, the headers decide: a file that declares weights (a
/// `c p weight` line or a weighted track) is counted weighted, one that
/// declares a show set (a `c p show` line or a projected track) is counted
/// projected, and one that declares neither is counted plain. Never
/// `compile`.
pub proof fn lemma_detected_mode_follows_headers(meta: CnfMeta)
    ensures
        (meta.weights_spec() is Some || meta.track_spec() == Some(Mode::Wmc) || meta.track_spec() == Some(Mode::Pwmc))
            <==> (detected_mode(meta) == Mode::Wmc || detected_mode(meta) == Mode::Pwmc),
        (meta.show_spec() is Some || meta.track_spec() == Some(Mode::Pmc) || meta.track_spec() == Some(Mode::Pwmc))
            <==> (detected_mode(meta) == Mode::Pmc || detected_mode(meta) == Mode::Pwmc),
        detected_mode(meta) != Mode::Compile,
{
}

/// With no `--mode`, a file that declares weights and no show set resolves
/// to weighted model counting, and any file that declares weights to a
/// weighted mode.
pub proof fn lemma_declared_weights_count_weighted(c: RunConfig, meta: CnfMeta, res: ResolvedMode)
    requires
        c.mode is None,
        meta.weights_spec() is Some,
        call_ensures(RunConfig::resolve_mode, (&c, &meta), Ok::<ResolvedMode, VitriError>(res)),
    ensures
        res.mode == Mode::Wmc || res.mode == Mode::Pwmc,
        meta.show_spec() is None && meta.track_spec() != Some(Mode::Pmc) && meta.track_spec() != Some(Mode::Pwmc)
            ==> res.mode == Mode::Wmc,
{
    lemma_detected_mode_follows_headers(meta);
}

/// The track a file declares, [`Mode::Mc`] when none.
pub open spec fn meta_mode(meta: CnfMeta) -> Mode {
    match meta.track_spec() {
        Some(m) => m,
        None => Mode::Mc,
    }
}

/// Whether the file declares weights.
pub open spec fn declares_weights(meta: CnfMeta) -> bool {
    meta_mode(meta) == Mode::Wmc || meta_mode(meta) == Mode::Pwmc || meta.weights_spec() is Some
}

/// Whether the file declares a show set or a projected track.
pub open spec fn declares_show(meta: CnfMeta) -> bool {
    meta_mode(meta) == Mode::Pmc || meta_mode(meta) == Mode::Pwmc || meta.show_spec() is Some
}

/// The notice that weights are ignored under `mode`.
pub open spec fn weights_notice(mode: Mode) -> Seq<char> {
    "c note: ignoring weight declarations (mode "@ + mode_token(mode) + ")"@
}

/// The notice that the show set is ignored under `mode`.
pub open spec fn show_notice(mode: Mode) -> Seq<char> {
    "c note: ignoring the projection show set (mode "@ + mode_token(mode) + ")"@
}

/// The refusal of a projected mode on a file with no show set.
pub open spec fn no_show_set_text(mode: Mode) -> Seq<char> {
    "mode "@ + mode_token(mode)
        + " is projected, but the instance carries no `c p show` line \u{2014} there is no show set to preserve, so the mode is inert. Use "@
        + (if mode == Mode::Pwmc { "wmc"@ } else { "mc"@ }) + " for this file, or add the show set"@
}

/// The one precondition a projected mode carries: the instance must declare
/// the set to project onto.
fn require_show_set(mode: Mode, meta: &CnfMeta) -> (r: Result<(), VitriError>)
    ensures
        match r {
            Ok(()) => !((mode == Mode::Pmc || mode == Mode::Pwmc) && meta.show_spec() is None),
            Err(e) => (mode == Mode::Pmc || mode == Mode::Pwmc) && meta.show_spec() is None
                && e.spec_kind() == crate::error::ErrorKind::Config && e.text() == no_show_set_text(mode),
        },
{
    if mode.is_projected() && meta.declared_show_vars().is_none() {
        let mut m = String::from_str("mode ");
        m.append(mode.token());
        m.append(" is projected, but the instance carries no `c p show` line \u{2014} there is no show set to preserve, so the mode is inert. Use ");
        m.append(if mode.is_weighted() { "wmc" } else { "mc" });
        m.append(" for this file, or add the show set");
        return Err(VitriError::config(m.as_str()));
    }
    Ok(())
}

/// The notice line naming `mode`, after `prefix`.
fn notice(prefix: &str, mode: Mode) -> (r: String)
    ensures
        r@ == prefix@ + mode_token(mode) + ")"@,
{
    let mut m = String::from_str(prefix);
    m.append(mode.token());
    m.append(")");
    m
}

/// `r` is `c` with both budget fields resolved against `now`: an explicit
/// deadline kept, else `budget_ms` counted from `now`; and `budget_ms` kept,
/// else what is left of the deadline at `now` in whole milliseconds.
pub open spec fn anchored_at(c: RunConfig, now: Instant, r: RunConfig) -> bool {
    &&& match c.deadline {
        Some(d) => r.deadline == Some(d),
        None => match c.budget_ms {
            Some(ms) => r.deadline is Some && r.deadline->Some_0.at() == now.at() + ms * ms_nanos(),
            None => r.deadline is None,
        },
    }
    &&& r.budget_ms == match c.budget_ms {
        Some(ms) => Some(ms),
        None => match c.deadline {
            Some(d) => Some(
                #[verifier::truncate] ((crate::budget::remaining_spec(d, now) / (ms_nanos() as nat)) as u64),
            ),
            None => None,
        },
    }
    &&& r == (RunConfig { deadline: r.deadline, budget_ms: r.budget_ms, ..c })
}

/// Anchoring decides a run's end once: a configuration anchored at `first`
/// and anchored again at any `second` keeps the deadline and the budget
/// scale the first anchoring gave it, whenever it had a budget or a deadline
/// to anchor.
pub proof fn lemma_anchoring_decides_once(c: RunConfig, first: Instant, a: RunConfig, second: Instant, b: RunConfig)
    requires
        anchored_at(c, first, a),
        anchored_at(a, second, b),
        c.deadline is Some || c.budget_ms is Some,
    ensures
        b == a,
{
}

impl RunConfig {
    /// The production configuration with the run's budget taken from
    /// `budget_var`, the value of `VITRI_BUDGET_MS` (`None` when it is unset):
    /// anything but a `u64` leaves the run unbounded rather than failing, so a
    /// stale export cannot stop a run that never asked for a budget.
    pub fn from_env_defaults(budget_var: Option<&str>) -> (r: Self)
        ensures
            r.budget_ms == budget_hint_spec(match budget_var {
                Some(t) => Some(t.spec_bytes()),
                None => None,
            }),
            r.simplify == crate::config::validate::standard_simplify(),
            r.deadline is None,
            r.preprocess_clock == PreprocessClock::WallClock,
            r.arjun_budget == ArjunBudget::Derived,
            r.arjun_clause_growth == ArjunClauseGrowth::Reject,
            r.projection_policy == ProjectionPolicy::Full,
            r.construction_budget == ConstructionBudget::Share,
            r.vtree_spec@ == DEFAULT_VTREE_SPEC@,
            r.stages == (PreprocessStages { simplify: true, arjun: true }),
            r.components == ComponentPolicy::Split,
            r.candidates == 1,
            r.mode is None,
            !r.retain_arjun_input,
            r.arjun_sbva == ArjunSbva::On,
    {
        let mut c = RunConfig::default();
        c.budget_ms = budget_hint_ms(budget_var);
        c
    }
}

impl RunConfig {
    /// The instant this run must stop by: an explicit `deadline` wins, else
    /// `budget_ms` counted from `now`. `None` = no cutoff.
    pub fn resolved_deadline(&self, now: Instant) -> (r: Option<Instant>)
        requires
            match self.budget_ms {
                Some(ms) => now.at() + ms * ms_nanos() <= u128::MAX,
                None => true,
            },
        ensures
            match self.deadline {
                Some(d) => r == Some(d),
                None => match self.budget_ms {
                    Some(ms) => r is Some && r->Some_0.at() == now.at() + ms * ms_nanos(),
                    None => r is None,
                },
            },
    {
        match self.deadline {
            Some(d) => Some(d),
            None => match self.budget_ms {
                Some(ms) => now.checked_add(Duration::from_millis(ms)),
                None => None,
            },
        }
    }

    /// The budget the internal budget sites scale their sub-budgets from:
    /// `budget_ms`, else what is left of `deadline` at `now`, in whole
    /// milliseconds.
    pub fn effective_budget_ms(&self, now: Instant) -> (r: Option<u64>)
        ensures
            r == match self.budget_ms {
                Some(ms) => Some(ms),
                None => match self.deadline {
                    Some(d) => Some(
                        #[verifier::truncate] ((crate::budget::remaining_spec(d, now) / (ms_nanos() as nat)) as u64),
                    ),
                    None => None,
                },
            },
    {
        match self.budget_ms {
            Some(ms) => Some(ms),
            None => match self.deadline {
                Some(d) => {
                    let left = d.saturating_duration_since(now).as_millis();
                    Some(#[verifier::truncate] (left as u64))
                },
                None => None,
            },
        }
    }

    /// This configuration with both budget fields resolved against `now`: the
    /// instant the run must stop at, and the millisecond scale its sub-budgets
    /// are derived from. A run's phases share one budget only if the instant
    /// it ends at is decided once, here.
    pub fn anchored(&self, now: Instant) -> (r: RunConfig)
        requires
            match self.budget_ms {
                Some(ms) => now.at() + ms * ms_nanos() <= u128::MAX,
                None => true,
            },
        ensures
            anchored_at(*self, now, r),
    {
        RunConfig {
            budget_ms: self.effective_budget_ms(now),
            deadline: self.resolved_deadline(now),
            preprocess_clock: self.preprocess_clock,
            arjun_budget: self.arjun_budget,
            arjun_clause_growth: self.arjun_clause_growth,
            projection_policy: self.projection_policy,
            construction_budget: self.construction_budget,
            vtree_spec: self.vtree_spec.clone(),
            stages: self.stages,
            simplify: self.simplify,
            components: self.components,
            candidates: self.candidates,
            mode: self.mode,
            retain_arjun_input: self.retain_arjun_input,
            arjun_sbva: self.arjun_sbva,
        }
    }

    /// The mode this run preprocesses for: [`Self::mode`] when set, otherwise
    /// detected from `meta`. Each header declaration an explicit mode does not
    /// use produces one notice; `compile` uses every declaration.
    ///
    /// # Errors
    ///
    /// [`VitriError`] of kind `config` when the mode is projected and the
    /// instance carries no show set to project onto.
    pub fn resolve_mode(&self, meta: &CnfMeta) -> (r: Result<ResolvedMode, VitriError>)
        ensures
            ({
                let mode = match self.mode {
                    Some(m) => m,
                    None => detected_mode(*meta),
                };
                let refused = (mode == Mode::Pmc || mode == Mode::Pwmc) && meta.show_spec() is None;
                match r {
                    Err(e) => refused && e.text() == no_show_set_text(mode)
                        && e.spec_kind() == crate::error::ErrorKind::Config,
                    Ok(res) => !refused && res.mode == mode && ({
                        let w = self.mode is Some && mode != Mode::Compile && declares_weights(*meta)
                            && !(mode == Mode::Wmc || mode == Mode::Pwmc);
                        let s = self.mode is Some && mode != Mode::Compile && declares_show(*meta)
                            && !(mode == Mode::Pmc || mode == Mode::Pwmc);
                        &&& res.notices@.len() == (if w { 1int } else { 0int }) + (if s { 1int } else { 0int })
                        &&& w ==> res.notices@[0]@ == weights_notice(mode)
                        &&& s ==> res.notices@[res.notices@.len() - 1]@ == show_notice(mode)
                    }),
                }
            }),
    {
        let meta_mode = meta.mode();
        let weights = meta_mode.is_weighted() || meta.declared_weights().is_some();
        let show = meta_mode.is_projected() || meta.declared_show_vars().is_some();
        let detected = if show && weights {
            Mode::Pwmc
        } else if show {
            Mode::Pmc
        } else if weights {
            Mode::Wmc
        } else {
            Mode::Mc
        };
        match self.mode {
            None => {
                match require_show_set(detected, meta) {
                    Err(e) => Err(e),
                    Ok(()) => Ok(ResolvedMode { mode: detected, notices: Vec::new() }),
                }
            },
            Some(asked) => {
                match require_show_set(asked, meta) {
                    Err(e) => {
                        return Err(e);
                    },
                    Ok(()) => {},
                }
                let mut notices: Vec<String> = Vec::new();
                if asked != Mode::Compile {
                    if weights && !asked.is_weighted() {
                        notices.push(notice("c note: ignoring weight declarations (mode ", asked));
                    }
                    if show && !asked.is_projected() {
                        notices.push(notice("c note: ignoring the projection show set (mode ", asked));
                    }
                }
                Ok(ResolvedMode { mode: asked, notices })
            },
        }
    }
}

/// The `u64` a budget hint spells, when it spells one.
pub open spec fn budget_hint_spec(raw: Option<Seq<u8>>) -> Option<u64> {
    match raw {
        Some(t) => match int_in(t, false, 0, u64::MAX as int) {
            Some(v) => Some(v as u64),
            None => None,
        },
        None => None,
    }
}

/// The pure half of the `VITRI_BUDGET_MS` read: anything that is not a `u64`
/// — the empty string included — reads as unset and leaves the run
/// unbounded.
pub fn budget_hint_ms(raw: Option<&str>) -> (r: Option<u64>)
    ensures
        r == budget_hint_spec(match raw {
            Some(t) => Some(t.spec_bytes()),
            None => None,
        }),
{
    match raw {
        Some(t) => match read_int(t.as_bytes(), false, u64::MAX, 0) {
            Some((_, v)) => Some(v),
            None => None,
        },
        None => None,
    }
}

} // verus!
