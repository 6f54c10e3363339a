//! Refusing configurations that cannot do what they say, checked once so
//! every caller fails identically on the same input: settings that contradict
//! one another, and knobs whose stage or chain will not run.

use super::{chain_for, chain_stages, ArjunBudget, ArjunClauseGrowth, Chain, ConstructionBudget, DvePolicy, PreprocessStages, ProjectionNoGain, ProjectionPolicy, RunConfig, SimplifyPolicy};
use crate::clock::Duration;
use crate::candidates::{retains_set, MAX_CANDIDATES};
use crate::cnf::{all_modes, mode_token, Mode};
use crate::error::{ErrorKind, VitriError};
use crate::text::{ascii_chars, ascii_text, decimal, decimal_string, hex_digit, is_ascii_bytes, push_bytes, push_decimal, push_decimal_wide};
use vstd::string::StrSliceExecFns;
use vstd::prelude::*;

verus! {

/// One preprocessing stage a caller can switch off.
#[derive(Clone, Copy, Debug, PartialEq, Eq, Structural)]
pub enum SwitchableStage {
    /// The simplify chain.
    Simplify,
    /// The Arjun stage.
    Arjun,
}

/// The stage as a message names it.
pub open spec fn stage_name(s: SwitchableStage) -> Seq<char> {
    match s {
        SwitchableStage::Simplify => "simplify"@,
        SwitchableStage::Arjun => "Arjun"@,
    }
}

/// The command-line flag that switches the stage off.
pub open spec fn stage_flag(s: SwitchableStage) -> Seq<char> {
    match s {
        SwitchableStage::Simplify => "--no-simplify"@,
        SwitchableStage::Arjun => "--no-arjun"@,
    }
}

/// Whether `stages` has the stage on.
pub open spec fn stage_set_in(s: SwitchableStage, stages: PreprocessStages) -> bool {
    match s {
        SwitchableStage::Simplify => stages.simplify,
        SwitchableStage::Arjun => stages.arjun,
    }
}

impl SwitchableStage {
    /// The stage, as a message names it.
    pub fn name(self) -> (r: &'static str)
        ensures
            r@ == stage_name(self),
    {
        match self {
            SwitchableStage::Simplify => "simplify",
            SwitchableStage::Arjun => "Arjun",
        }
    }

    /// The flag that switches it off.
    pub fn flag(self) -> (r: &'static str)
        ensures
            r@ == stage_flag(self),
    {
        match self {
            SwitchableStage::Simplify => "--no-simplify",
            SwitchableStage::Arjun => "--no-arjun",
        }
    }

    /// The request key that sets it either way.
    pub fn key(self) -> (r: &'static str)
        ensures
            r@ == match self {
                SwitchableStage::Simplify => "simplify"@,
                SwitchableStage::Arjun => "arjun"@,
            },
    {
        match self {
            SwitchableStage::Simplify => "simplify",
            SwitchableStage::Arjun => "arjun",
        }
    }

    /// This stage's switch in `stages`.
    pub fn set_in(self, stages: &PreprocessStages) -> (r: bool)
        ensures
            r == stage_set_in(self, *stages),
    {
        match self {
            SwitchableStage::Simplify => stages.simplify,
            SwitchableStage::Arjun => stages.arjun,
        }
    }
}

/// What a knob needs before it can change anything: a stage, or a chain.
#[derive(Clone, Copy, Debug, PartialEq, Eq, Structural)]
pub enum Requirement {
    /// The simplify chain.
    Simplify,
    /// The Arjun stage.
    Arjun,
    /// The count-preserving chain, where the clause-growth gate is.
    CountChain,
    /// The projected chain, where projected Arjun is.
    ProjectionChain,
}

/// The stage a requirement's knob acts inside.
pub open spec fn requirement_stage(r: Requirement) -> SwitchableStage {
    match r {
        Requirement::Simplify => SwitchableStage::Simplify,
        _ => SwitchableStage::Arjun,
    }
}

/// Whether `mode`'s preprocessing has what the requirement names.
pub open spec fn met_by(r: Requirement, mode: Mode) -> bool {
    match r {
        Requirement::Simplify | Requirement::Arjun => stage_set_in(requirement_stage(r), chain_stages(chain_for(mode))),
        Requirement::CountChain => chain_for(mode) == Chain::Count,
        Requirement::ProjectionChain => chain_for(mode) == Chain::Projection,
    }
}

/// What a mode that does not meet the requirement is missing.
pub open spec fn missing_text(r: Requirement) -> Seq<char> {
    match r {
        Requirement::Simplify => "no simplify stage"@,
        Requirement::Arjun => "no Arjun stage"@,
        Requirement::CountChain => "no count-preserving chain, and so no clause-growth gate"@,
        Requirement::ProjectionChain => "no projected chain"@,
    }
}

/// The tokens of the modes among `modes` that meet `r`, joined by `/`.
pub open spec fn modes_meeting(r: Requirement, modes: Seq<Mode>) -> Seq<char>
    decreases modes.len(),
{
    if modes.len() == 0 {
        Seq::empty()
    } else {
        let before = modes_meeting(r, modes.drop_last());
        if met_by(r, modes.last()) {
            if before.len() == 0 {
                mode_token(modes.last())
            } else {
                before + "/"@ + mode_token(modes.last())
            }
        } else {
            before
        }
    }
}

impl Requirement {
    /// The stage the knob acts inside, which has to be on for it to do
    /// anything.
    pub fn stage(self) -> (r: SwitchableStage)
        ensures
            r == requirement_stage(self),
    {
        match self {
            Requirement::Simplify => SwitchableStage::Simplify,
            Requirement::Arjun | Requirement::CountChain | Requirement::ProjectionChain => SwitchableStage::Arjun,
        }
    }

    /// Whether `mode`'s preprocessing has it.
    pub fn met_by(self, mode: Mode) -> (r: bool)
        ensures
            r == met_by(self, mode),
    {
        match self {
            Requirement::Simplify | Requirement::Arjun => self.stage().set_in(&PreprocessStages::read_under(mode)),
            Requirement::CountChain => Chain::for_mode(mode) == Chain::Count,
            Requirement::ProjectionChain => Chain::for_mode(mode) == Chain::Projection,
        }
    }

    /// What a mode that does not meet this is missing, as a refusal says it.
    pub fn missing(self) -> (r: &'static str)
        ensures
            r@ == missing_text(self),
    {
        match self {
            Requirement::Simplify => "no simplify stage",
            Requirement::Arjun => "no Arjun stage",
            Requirement::CountChain => "no count-preserving chain, and so no clause-growth gate",
            Requirement::ProjectionChain => "no projected chain",
        }
    }

    /// The modes that do meet it, as `mc/wmc`, read off the modes
    /// themselves.
    pub fn modes(self) -> (r: String)
        ensures
            r@ == modes_meeting(self, all_modes()),
    {
        let modes: [Mode; 5] = [Mode::Mc, Mode::Wmc, Mode::Pmc, Mode::Pwmc, Mode::Compile];
        proof {
            assert(modes@ =~= all_modes());
        }
        let mut out = String::new();
        let mut any = false;
        let mut i: usize = 0;
        while i < 5
            invariant
                i <= 5,
                modes@ == all_modes(),
                out@ == modes_meeting(self, modes@.take(i as int)),
                any == (out@.len() > 0),
            decreases 5 - i,
        {
            let m = modes[i];
            proof {
                assert(modes@.take(i + 1).drop_last() =~= modes@.take(i as int));
                assert(modes@.take(i + 1).last() == m);
                reveal_strlit("/");
                reveal_strlit("mc");
                reveal_strlit("wmc");
                reveal_strlit("pmc");
                reveal_strlit("pwmc");
                reveal_strlit("compile");
            }
            if self.met_by(m) {
                if any {
                    out.append("/");
                }
                out.append(m.token());
                any = true;
            }
            i = i + 1;
        }
        proof {
            assert(modes@.take(5) =~= modes@);
        }
        out
    }
}

/// The last `w` decimal digits of `f`, zero-padded, most significant first.
pub open spec fn frac_digits(f: nat, w: nat) -> Seq<u8>
    decreases w,
{
    if w == 0 {
        Seq::empty()
    } else {
        frac_digits(f / 10, (w - 1) as nat).push((48 + f % 10) as u8)
    }
}

/// `s` without its trailing zero digits.
pub open spec fn trim_zeros(s: Seq<u8>) -> Seq<u8>
    decreases s.len(),
{
    if s.len() > 0 && s.last() == 48 {
        trim_zeros(s.drop_last())
    } else {
        s
    }
}

/// The fractional part `f` of a `w`-digit fraction as a point and its
/// significant digits; nothing when it is zero.
pub open spec fn fraction(f: nat, w: nat) -> Seq<u8> {
    if f == 0 {
        Seq::empty()
    } else {
        seq![46u8] + trim_zeros(frac_digits(f, w))
    }
}

/// A span of `n` nanoseconds as `Duration`'s `Debug` writes it: the largest
/// unit among seconds, milliseconds, microseconds and nanoseconds that leaves
/// a nonzero whole part, its fraction with no trailing zero, and the unit.
pub open spec fn duration_text(n: nat) -> Seq<char> {
    let secs = n / 1_000_000_000;
    let sub = n % 1_000_000_000;
    if secs > 0 {
        ascii_chars(decimal(secs) + fraction(sub, 9)) + "s"@
    } else if sub >= 1_000_000 {
        ascii_chars(decimal(sub / 1_000_000) + fraction(sub % 1_000_000, 6)) + "ms"@
    } else if sub >= 1_000 {
        ascii_chars(decimal(sub / 1_000) + fraction(sub % 1_000, 3)) + "µs"@
    } else {
        ascii_chars(decimal(sub)) + "ns"@
    }
}

/// How `Debug` writes a clause-growth policy.
pub open spec fn growth_text(g: ArjunClauseGrowth) -> Seq<char> {
    match g {
        ArjunClauseGrowth::Reject => "Reject"@,
        ArjunClauseGrowth::KeepSound => "KeepSound"@,
        ArjunClauseGrowth::RejectAgainst(n) => "RejectAgainst("@ + ascii_chars(decimal(n as nat)) + ")"@,
    }
}

/// How `Debug` writes a no-gain policy.
pub open spec fn no_gain_text(n: ProjectionNoGain) -> Seq<char> {
    match n {
        ProjectionNoGain::Reject => "Reject"@,
        ProjectionNoGain::KeepSound => "KeepSound"@,
    }
}

/// Appends the last `w` digits of `f`, zero-padded.
fn push_frac_digits(out: &mut Vec<u8>, f: u64, w: u64)
    requires
        is_ascii_bytes(old(out)@),
    ensures
        final(out)@ == old(out)@ + frac_digits(f as nat, w as nat),
        is_ascii_bytes(final(out)@),
    decreases w,
{
    if w > 0 {
        push_frac_digits(out, f / 10, w - 1);
        out.push((48 + f % 10) as u8);
    }
}

/// Appends the fraction `f` of a `w`-digit fraction: a point and its
/// significant digits, or nothing when it is zero.
fn push_fraction(out: &mut Vec<u8>, f: u64, w: u64)
    requires
        is_ascii_bytes(old(out)@),
    ensures
        final(out)@ == old(out)@ + fraction(f as nat, w as nat),
        is_ascii_bytes(final(out)@),
{
    if f == 0 {
        return;
    }
    let mut digits: Vec<u8> = Vec::new();
    push_frac_digits(&mut digits, f, w);
    let ghost all = digits@;
    proof {
        assert(Seq::<u8>::empty() + all == all);
    }
    while digits.len() > 0 && digits[digits.len() - 1] == 48
        invariant
            trim_zeros(digits@) == trim_zeros(all),
            is_ascii_bytes(digits@),
        decreases digits@.len(),
    {
        proof {
            assert(trim_zeros(digits@) == trim_zeros(digits@.drop_last()));
        }
        digits.pop();
    }
    proof {
        assert(trim_zeros(digits@) == digits@);
    }
    out.push(46);
    push_bytes(out, digits.as_slice());
    proof {
        assert(out@ =~= old(out)@ + fraction(f as nat, w as nat));
    }
}

/// `d` as `Duration`'s `Debug` writes it.
fn duration_debug(d: Duration) -> (r: String)
    ensures
        r@ == duration_text(d.nanos()),
{
    let n = d.as_nanos();
    let secs = n / 1_000_000_000;
    let sub = (n % 1_000_000_000) as u64;
    let mut bytes: Vec<u8> = Vec::new();
    let unit: &str;
    if secs > 0 {
        push_decimal_wide(&mut bytes, secs);
        push_fraction(&mut bytes, sub, 9);
        unit = "s";
    } else if sub >= 1_000_000 {
        push_decimal(&mut bytes, sub / 1_000_000);
        push_fraction(&mut bytes, sub % 1_000_000, 6);
        unit = "ms";
    } else if sub >= 1_000 {
        push_decimal(&mut bytes, sub / 1_000);
        push_fraction(&mut bytes, sub % 1_000, 3);
        unit = "µs";
    } else {
        push_decimal(&mut bytes, sub);
        unit = "ns";
    }
    let mut s = ascii_text(bytes);
    s.append(unit);
    s
}

/// `g` as `Debug` writes it.
fn growth_debug(g: ArjunClauseGrowth) -> (r: String)
    ensures
        r@ == growth_text(g),
{
    match g {
        ArjunClauseGrowth::Reject => String::from_str("Reject"),
        ArjunClauseGrowth::KeepSound => String::from_str("KeepSound"),
        ArjunClauseGrowth::RejectAgainst(n) => {
            let mut s = String::from_str("RejectAgainst(");
            let digits = decimal_string(n as u64);
            s.append(digits.as_str());
            s.append(")");
            s
        },
    }
}

/// `n` as `Debug` writes it.
fn no_gain_debug(n: ProjectionNoGain) -> (r: &'static str)
    ensures
        r@ == no_gain_text(n),
{
    match n {
        ProjectionNoGain::Reject => "Reject",
        ProjectionNoGain::KeepSound => "KeepSound",
    }
}

/// The simplify policy a run has unless told otherwise.
pub open spec fn standard_simplify() -> SimplifyPolicy {
    SimplifyPolicy {
        backbone_budget_ms: Some(300_000u64),
        equivalence_budget_ms: Some(300u64),
        detect_gates: true,
        dve: Some(DvePolicy { rounds: 30, budget_ms: 3_000 }),
    }
}

/// One setting that only does something inside one stage or on what one
/// chain produces: how a refusal names it, what it needs, and the setting
/// that asks for nothing, phrased to follow "or".
pub struct ConditionalKnob {
    /// The knob and its value, as a refusal opens with it.
    pub label: String,
    /// What has to be there before the knob changes anything.
    pub needs: Requirement,
    /// The setting that makes the knob inert on purpose.
    pub instead: &'static str,
}

/// A knob as its three parts.
pub open spec fn knob_row(k: ConditionalKnob) -> (Seq<char>, Requirement, Seq<char>) {
    (k.label@, k.needs, k.instead@)
}

/// Every knob of `c` set away from its default that only one stage or chain
/// can answer, in the order they are checked.
pub open spec fn knob_rows(c: RunConfig) -> Seq<(Seq<char>, Requirement, Seq<char>)> {
    let simplify = if c.simplify != standard_simplify() {
        seq![("a non-default simplify policy"@, Requirement::Simplify, "use SimplifyPolicy::default()"@)]
    } else {
        Seq::empty()
    };
    let growth = if c.arjun_clause_growth != ArjunClauseGrowth::Reject {
        seq![("arjun_clause_growth "@ + growth_text(c.arjun_clause_growth), Requirement::CountChain, "use ArjunClauseGrowth::Reject"@)]
    } else {
        Seq::empty()
    };
    let projection = match c.projection_policy {
        ProjectionPolicy::ArjunOnly(n) => seq![
            ("projection_policy ArjunOnly("@ + no_gain_text(n) + ")"@, Requirement::ProjectionChain, "use ProjectionPolicy::Full"@),
        ],
        ProjectionPolicy::Full => Seq::empty(),
    };
    let budget = match c.arjun_budget {
        ArjunBudget::Exact(d) => seq![
            ("arjun_budget Exact("@ + duration_text(d.nanos()) + ")"@, Requirement::Arjun, "use ArjunBudget::Derived"@),
        ],
        ArjunBudget::Derived => Seq::empty(),
    };
    simplify + growth + projection + budget
}

/// The first knob from `i` on whose stage `stages` has off.
pub open spec fn first_off_knob(rows: Seq<(Seq<char>, Requirement, Seq<char>)>, stages: PreprocessStages, i: int) -> Option<(Seq<char>, Requirement, Seq<char>)>
    decreases rows.len() - i,
{
    if i < 0 || i >= rows.len() {
        None
    } else if !stage_set_in(requirement_stage(rows[i].1), stages) {
        Some(rows[i])
    } else {
        first_off_knob(rows, stages, i + 1)
    }
}

/// The first knob from `i` on that `mode` does not meet.
pub open spec fn first_unmet_knob(rows: Seq<(Seq<char>, Requirement, Seq<char>)>, mode: Mode, i: int) -> Option<(Seq<char>, Requirement, Seq<char>)>
    decreases rows.len() - i,
{
    if i < 0 || i >= rows.len() {
        None
    } else if !met_by(rows[i].1, mode) {
        Some(rows[i])
    } else {
        first_unmet_knob(rows, mode, i + 1)
    }
}

/// What a refusal adds after the mode's name when the mode was detected
/// rather than declared.
pub open spec fn detected_text(declared: bool) -> Seq<char> {
    if declared {
        ""@
    } else {
        " (detected from the instance's own headers — no --mode was given)"@
    }
}

/// The refusal of the stage switch `switch` under `mode`, whose
/// preprocessing has no `stage`.
pub open spec fn absent_stage_text(switch: Seq<char>, stage: SwitchableStage, mode: Mode, declared: bool) -> Seq<char> {
    switch + " does nothing under mode "@ + mode_token(mode) + detected_text(declared)
        + ": that mode's preprocessing has no "@ + stage_name(stage)
        + " stage. Drop it, or run a mode whose preprocessing has one"@
}

/// The refusal of a knob `mode` has nothing to answer with.
pub open spec fn unmet_text(k: (Seq<char>, Requirement, Seq<char>), mode: Mode, declared: bool) -> Seq<char> {
    k.0 + " does nothing under mode "@ + mode_token(mode) + detected_text(declared)
        + ": that mode's preprocessing has "@ + missing_text(k.1) + ". Run "@ + modes_meeting(k.1, all_modes())
        + ", or "@ + k.2
}

/// The refusal of a count-only simplify setting under `compile`.
pub open spec fn count_only_text(mode: Mode) -> Seq<char> {
    "simplify.detect_gates and simplify.dve are count-only; changing either does nothing under mode "@
        + mode_token(mode)
        + " because compile caps both stages off. Leave both at SimplifyPolicy::default(), or run mc/wmc"@
}

/// What `c` asks for that `mode` has nothing to answer with, as the refusal
/// says it: a knob whose stage or chain the mode lacks, a count-only simplify
/// setting under `compile`, or a stage switched off that the mode does not
/// have.
pub open spec fn inert_refusal(c: RunConfig, mode: Mode) -> Option<Seq<char>> {
    let declared = c.mode is Some;
    let read = chain_stages(chain_for(mode));
    match first_unmet_knob(knob_rows(c), mode, 0) {
        Some(k) => Some(unmet_text(k, mode, declared)),
        None => if chain_for(mode) == Chain::Compile && (!c.simplify.detect_gates || c.simplify.dve != standard_simplify().dve) {
            Some(count_only_text(mode))
        } else if !c.stages.simplify && !read.simplify {
            Some(absent_stage_text("--no-simplify"@, SwitchableStage::Simplify, mode, declared))
        } else if !c.stages.arjun && !read.arjun {
            Some(absent_stage_text("--no-arjun"@, SwitchableStage::Arjun, mode, declared))
        } else {
            None
        },
    }
}

/// The knob whose stage is off, refused.
pub open spec fn stage_off_text(k: (Seq<char>, Requirement, Seq<char>)) -> Seq<char> {
    k.0 + " is inert because the "@ + stage_name(requirement_stage(k.1)) + " stage is off: switch the stage on, or "@ + k.2
}

/// An elimination pass armed with nothing to do, refused.
pub open spec fn dve_text(d: DvePolicy) -> Seq<char> {
    "simplify.dve is armed with rounds="@ + ascii_chars(decimal(d.rounds as nat)) + " and budget_ms="@
        + ascii_chars(decimal(d.budget_ms as nat))
        + ": both must be positive; use simplify.dve=None to disable DVE"@
}

/// The first setting of `c` that contradicts another or cannot do anything,
/// as the refusal says it, when the vtree spec itself is sound and
/// `spec_builds_candidates` says whether it scores several candidates.
pub open spec fn config_refusal(c: RunConfig, spec_builds_candidates: bool) -> Option<Seq<char>> {
    if c.simplify.dve is Some && (c.simplify.dve->Some_0.rounds == 0 || c.simplify.dve->Some_0.budget_ms == 0) {
        Some(dve_text(c.simplify.dve->Some_0))
    } else if c.simplify.backbone_budget_ms is None && c.simplify.equivalence_budget_ms is Some {
        Some(
            "simplify.equivalence_budget_ms is inert when simplify.backbone_budget_ms=None because SAT equivalence probing belongs to the backbone prefix: set simplify.equivalence_budget_ms=None or provide a backbone budget"@,
        )
    } else if first_off_knob(knob_rows(c), c.stages, 0) is Some {
        Some(stage_off_text(first_off_knob(knob_rows(c), c.stages, 0)->Some_0))
    } else if c.mode is Some && inert_refusal(c, c.mode->Some_0) is Some {
        inert_refusal(c, c.mode->Some_0)
    } else if c.construction_budget == (ConstructionBudget::Deterministic { units: 0 }) {
        Some(
            "a deterministic construction budget of 0 work units asks construction to do no work at all — pass the work a construction should be allowed to do, which ConstructionBudget::for_wall_ms converts from a wall in milliseconds"@,
        )
    } else if c.candidates == 0 {
        Some("candidates must be at least 1 (the selected vtree is always kept)"@)
    } else if c.candidates > 8 {
        Some(
            "candidates is "@ + ascii_chars(decimal(c.candidates as nat)) + " but the ceiling is 8 — every retained candidate holds a live vtree over the formula being built, so the retained set is a peak-memory decision and is refused rather than silently truncated"@,
        )
    } else if c.candidates > 1 && !spec_builds_candidates {
        Some(
            "candidates is "@ + ascii_chars(decimal(c.candidates as nat)) + " but vtree spec "@ + debug_text(c.vtree_spec@)
                + " builds a single vtree — only the portfolio spec (portfolio) scores several candidates and therefore has a candidate set to retain"@,
        )
    } else {
        None
    }
}

/// What `Debug` writes for a string: the string between double quotes, each
/// character escaped as `char::escape_debug` escapes it.
pub uninterp spec fn debug_text(s: Seq<char>) -> Seq<char>;

/// `s` as `Debug` writes a string, through `format!("{:?}")`. What it writes
/// on a given string is named; that it opens and closes with a double quote
/// is stated.
#[verifier::external_body]
fn debug_quoted(s: &str) -> (r: String)
    ensures
        r@ == debug_text(s@),
        r@.len() >= 2 && r@[0] == '"' && r@.last() == '"',
{
    format!("{:?}", s)
}

/// What a refusal adds after the mode's name when the mode was detected
/// rather than declared, so a user is not left looking for a `--mode` they
/// never typed.
pub fn detected_note(declared: bool) -> (r: &'static str)
    ensures
        r@ == detected_text(declared),
{
    if declared {
        ""
    } else {
        " (detected from the instance's own headers — no --mode was given)"
    }
}

/// Refuse `switch`, a stage switch as the caller spelt it — the flag or the
/// request key — under `mode`, whose preprocessing has no `stage`. `declared`
/// says whether the caller named the mode.
pub fn refuse_absent_stage(switch: &str, stage: SwitchableStage, mode: Mode, declared: bool) -> (r: Result<(), VitriError>)
    ensures
        r matches Err(e) && e.spec_kind() == ErrorKind::Config && e.text() == absent_stage_text(switch@, stage, mode, declared),
{
    let mut m = String::from_str(switch);
    m.append(" does nothing under mode ");
    m.append(mode.token());
    m.append(detected_note(declared));
    m.append(": that mode's preprocessing has no ");
    m.append(stage.name());
    m.append(" stage. Drop it, or run a mode whose preprocessing has one");
    Err(VitriError::config(m.as_str()))
}

impl RunConfig {
    /// Every knob set away from its default that only one stage or chain can
    /// answer: what it is set to, what it needs, and the setting that asks for
    /// nothing. A knob at its default produces no row, so a setting nobody
    /// asked for is never reported as inert.
    pub fn conditional_knobs(&self) -> (r: Vec<ConditionalKnob>)
        ensures
            r@.map_values(|k: ConditionalKnob| knob_row(k)) == knob_rows(*self),
    {
        let mut knobs: Vec<ConditionalKnob> = Vec::new();
        let ghost mut rows: Seq<(Seq<char>, Requirement, Seq<char>)> = Seq::empty();
        if self.simplify != SimplifyPolicy::standard() {
            knobs.push(ConditionalKnob {
                label: String::from_str("a non-default simplify policy"),
                needs: Requirement::Simplify,
                instead: "use SimplifyPolicy::default()",
            });
        }
        let ghost a = knobs@.map_values(|k: ConditionalKnob| knob_row(k));
        if self.arjun_clause_growth.requires_count_arjun() {
            let mut label = String::from_str("arjun_clause_growth ");
            let g = growth_debug(self.arjun_clause_growth);
            label.append(g.as_str());
            knobs.push(ConditionalKnob { label, needs: Requirement::CountChain, instead: "use ArjunClauseGrowth::Reject" });
        }
        let ghost b = knobs@.map_values(|k: ConditionalKnob| knob_row(k));
        match self.projection_policy {
            ProjectionPolicy::ArjunOnly(no_gain) => {
                let mut label = String::from_str("projection_policy ArjunOnly(");
                label.append(no_gain_debug(no_gain));
                label.append(")");
                knobs.push(ConditionalKnob { label, needs: Requirement::ProjectionChain, instead: "use ProjectionPolicy::Full" });
            },
            ProjectionPolicy::Full => {},
        }
        let ghost c = knobs@.map_values(|k: ConditionalKnob| knob_row(k));
        match self.arjun_budget {
            ArjunBudget::Exact(d) => {
                let mut label = String::from_str("arjun_budget Exact(");
                let t = duration_debug(d);
                label.append(t.as_str());
                label.append(")");
                knobs.push(ConditionalKnob { label, needs: Requirement::Arjun, instead: "use ArjunBudget::Derived" });
            },
            ArjunBudget::Derived => {},
        }
        proof {
            reveal_strlit("a non-default simplify policy");
            reveal_strlit("use SimplifyPolicy::default()");
            assert(knobs@.map_values(|k: ConditionalKnob| knob_row(k)) =~= knob_rows(*self));
        }
        knobs
    }
}

impl RunConfig {
    /// Refuse every request this run makes that `mode` has nothing to answer
    /// with: a knob whose stage or chain the mode's preprocessing lacks, a
    /// count-only simplify setting under `compile`, and a stage switched off
    /// that the mode does not have. Each refusal names what was asked for,
    /// the mode, and how the mode was arrived at.
    pub fn refuse_inert(&self, mode: Mode) -> (r: Result<(), VitriError>)
        ensures
            match inert_refusal(*self, mode) {
                None => r is Ok,
                Some(t) => r matches Err(e) && e.spec_kind() == ErrorKind::Config && e.text() == t,
            },
    {
        let read = PreprocessStages::read_under(mode);
        let chain = Chain::for_mode(mode);
        let how = detected_note(self.mode.is_some());
        let knobs = self.conditional_knobs();
        let ghost rows = knobs@.map_values(|k: ConditionalKnob| knob_row(k));
        let mut i: usize = 0;
        while i < knobs.len()
            invariant
                i <= knobs@.len(),
                rows == knobs@.map_values(|k: ConditionalKnob| knob_row(k)),
                rows == knob_rows(*self),
                how@ == detected_text(self.mode is Some),
                first_unmet_knob(rows, mode, 0) == first_unmet_knob(rows, mode, i as int),
            decreases knobs@.len() - i,
        {
            let knob = &knobs[i];
            proof {
                assert(rows[i as int] == knob_row(*knob));
            }
            if !knob.needs.met_by(mode) {
                let mut m = String::from_str(knob.label.as_str());
                m.append(" does nothing under mode ");
                m.append(mode.token());
                m.append(how);
                m.append(": that mode's preprocessing has ");
                m.append(knob.needs.missing());
                m.append(". Run ");
                let modes = knob.needs.modes();
                m.append(modes.as_str());
                m.append(", or ");
                m.append(knob.instead);
                return Err(VitriError::config(m.as_str()));
            }
            i = i + 1;
        }
        if matches!(chain, Chain::Compile) && self.simplify.customizes_count_only() {
            let mut m = String::from_str(
                "simplify.detect_gates and simplify.dve are count-only; changing either does nothing under mode ",
            );
            m.append(mode.token());
            m.append(" because compile caps both stages off. Leave both at SimplifyPolicy::default(), or run mc/wmc");
            return Err(VitriError::config(m.as_str()));
        }
        if !self.stages.simplify && !read.simplify {
            return refuse_absent_stage(SwitchableStage::Simplify.flag(), SwitchableStage::Simplify, mode, self.mode.is_some());
        }
        if !self.stages.arjun && !read.arjun {
            return refuse_absent_stage(SwitchableStage::Arjun.flag(), SwitchableStage::Arjun, mode, self.mode.is_some());
        }
        Ok(())
    }

    /// Reject a configuration that cannot do what it says — checked once, so
    /// every caller fails identically on the same input.
    ///
    /// The vtree spec's own grammar is judged by its parser, whose verdict is
    /// `vtree_spec_verdict`; `spec_builds_candidates` says whether that spec
    /// scores several candidates, as only the portfolio does.
    ///
    /// # Errors
    ///
    /// The spec's own refusal first; then a [`VitriError`] of kind `config`
    /// for a field that contradicts another, a knob whose stage is off or that
    /// an explicit mode cannot answer, a zero work budget, and a candidate
    /// count below one, above the ceiling, or above one for a spec with no
    /// candidate set.
    pub fn validate(&self, vtree_spec_verdict: Result<(), VitriError>, spec_builds_candidates: bool) -> (r: Result<(), VitriError>)
        ensures
            match vtree_spec_verdict {
                Err(e) => r == Err::<(), VitriError>(e),
                Ok(()) => match config_refusal(*self, spec_builds_candidates) {
                    None => r is Ok,
                    Some(t) => r matches Err(e) && e.spec_kind() == ErrorKind::Config && e.text() == t,
                },
            },
    {
        match vtree_spec_verdict {
            Err(e) => {
                return Err(e);
            },
            Ok(()) => {},
        }
        match self.simplify.dve {
            Some(dve) => {
                if dve.rounds == 0 || dve.budget_ms == 0 {
                    let mut m = String::from_str("simplify.dve is armed with rounds=");
                    let rounds = decimal_string(dve.rounds as u64);
                    m.append(rounds.as_str());
                    m.append(" and budget_ms=");
                    let ms = decimal_string(dve.budget_ms);
                    m.append(ms.as_str());
                    m.append(": both must be positive; use simplify.dve=None to disable DVE");
                    return Err(VitriError::config(m.as_str()));
                }
            },
            None => {},
        }
        if self.simplify.backbone_budget_ms.is_none() && self.simplify.equivalence_budget_ms.is_some() {
            return Err(VitriError::config(
                "simplify.equivalence_budget_ms is inert when simplify.backbone_budget_ms=None because SAT equivalence probing belongs to the backbone prefix: set simplify.equivalence_budget_ms=None or provide a backbone budget",
            ));
        }
        let knobs = self.conditional_knobs();
        let ghost rows = knobs@.map_values(|k: ConditionalKnob| knob_row(k));
        let mut i: usize = 0;
        while i < knobs.len()
            invariant
                i <= knobs@.len(),
                rows == knobs@.map_values(|k: ConditionalKnob| knob_row(k)),
                rows == knob_rows(*self),
                first_off_knob(rows, self.stages, 0) == first_off_knob(rows, self.stages, i as int),
                vtree_spec_verdict is Ok,
                !(self.simplify.dve is Some && (self.simplify.dve->Some_0.rounds == 0 || self.simplify.dve->Some_0.budget_ms == 0)),
                !(self.simplify.backbone_budget_ms is None && self.simplify.equivalence_budget_ms is Some),
            decreases knobs@.len() - i,
        {
            let knob = &knobs[i];
            proof {
                assert(rows[i as int] == knob_row(*knob));
            }
            let stage = knob.needs.stage();
            if !stage.set_in(&self.stages) {
                let mut m = String::from_str(knob.label.as_str());
                m.append(" is inert because the ");
                m.append(stage.name());
                m.append(" stage is off: switch the stage on, or ");
                m.append(knob.instead);
                return Err(VitriError::config(m.as_str()));
            }
            i = i + 1;
        }
        match self.mode {
            Some(mode) => {
                match self.refuse_inert(mode) {
                    Err(e) => {
                        return Err(e);
                    },
                    Ok(()) => {},
                }
            },
            None => {},
        }
        if self.construction_budget == (ConstructionBudget::Deterministic { units: 0 }) {
            return Err(VitriError::config(
                "a deterministic construction budget of 0 work units asks construction to do no work at all — pass the work a construction should be allowed to do, which ConstructionBudget::for_wall_ms converts from a wall in milliseconds",
            ));
        }
        if self.candidates == 0 {
            return Err(VitriError::config("candidates must be at least 1 (the selected vtree is always kept)"));
        }
        if self.candidates > MAX_CANDIDATES {
            let mut m = String::from_str("candidates is ");
            let n = decimal_string(self.candidates as u64);
            m.append(n.as_str());
            m.append(" but the ceiling is 8 — every retained candidate holds a live vtree over the formula being built, so the retained set is a peak-memory decision and is refused rather than silently truncated");
            return Err(VitriError::config(m.as_str()));
        }
        if retains_set(self.candidates) && !spec_builds_candidates {
            let mut m = String::from_str("candidates is ");
            let n = decimal_string(self.candidates as u64);
            m.append(n.as_str());
            m.append(" but vtree spec ");
            let q = debug_quoted(self.vtree_spec.as_str());
            m.append(q.as_str());
            m.append(" builds a single vtree — only the portfolio spec (portfolio) scores several candidates and therefore has a candidate set to retain");
            return Err(VitriError::config(m.as_str()));
        }
        Ok(())
    }
}

} // verus!
