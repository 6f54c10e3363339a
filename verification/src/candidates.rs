//! The retention half of the ranked candidate set: how many vtrees a run may
//! keep beside the one it selects, and which score orders them.
//!
//! A run keeping one vtree has no set; a run keeping more has one, up to
//! [`MAX_CANDIDATES`]. The set is ordered by the same metric the selector
//! minimized, and that metric's manifest token reads back to the metric.

use crate::text::same_text;
use vstd::prelude::*;

verus! {

/// Ceiling on how many candidates may be retained.
///
/// Eight is deliberately just above the production catalog, so asking for the
/// maximum retains everything the portfolio can produce. It is a memory bound:
/// each retained candidate holds a live vtree over the formula being built.
/// Exceeding it is an error naming the cap, never a silent truncation.
pub const MAX_CANDIDATES: usize = 8;

/// Whether a run keeping `keep` vtrees retains a candidate set: one vtree is
/// not a set, and anything above one is.
pub fn retains_set(keep: usize) -> (r: bool)
    ensures
        r == (keep > 1),
{
    keep > 1
}

/// Which score the candidate set's ranks after the first are ordered by —
/// always the metric the selector minimized on that run. Every variant is
/// lower-is-better and names one score field.
#[derive(Clone, Copy, Debug, PartialEq, Eq, Structural)]
pub enum CandidateRankMetric {
    /// Plain model counting: the standard deviation of per-node clause load.
    ClauseLoadStddev,
    /// Projected counting with a show mask: context width counted over show
    /// variables only.
    PeakContextWidthShow,
    /// Projected counting without a show mask: the same peak over every
    /// variable.
    PeakContextWidthAll,
}

/// The manifest token of a metric.
pub open spec fn metric_token(m: CandidateRankMetric) -> Seq<char> {
    match m {
        CandidateRankMetric::ClauseLoadStddev => "clause_load_stddev"@,
        CandidateRankMetric::PeakContextWidthShow => "peak_context_width_show"@,
        CandidateRankMetric::PeakContextWidthAll => "peak_context_width_all"@,
    }
}

/// The metric a manifest token names, if any.
pub open spec fn metric_named(s: Seq<char>) -> Option<CandidateRankMetric> {
    if s == "clause_load_stddev"@ {
        Some(CandidateRankMetric::ClauseLoadStddev)
    } else if s == "peak_context_width_show"@ {
        Some(CandidateRankMetric::PeakContextWidthShow)
    } else if s == "peak_context_width_all"@ {
        Some(CandidateRankMetric::PeakContextWidthAll)
    } else {
        None
    }
}

impl CandidateRankMetric {
    /// Parses a manifest token: `"clause_load_stddev"`,
    /// `"peak_context_width_show"`, `"peak_context_width_all"`; `None` for
    /// anything else.
    pub fn parse(s: &str) -> (r: Option<Self>)
        ensures
            r == metric_named(s@),
    {
        if same_text(s, "clause_load_stddev") {
            Some(CandidateRankMetric::ClauseLoadStddev)
        } else if same_text(s, "peak_context_width_show") {
            Some(CandidateRankMetric::PeakContextWidthShow)
        } else if same_text(s, "peak_context_width_all") {
            Some(CandidateRankMetric::PeakContextWidthAll)
        } else {
            None
        }
    }

    /// Stable token for the emitted manifest: the name of the score field this
    /// metric reads.
    pub fn as_str(self) -> (r: &'static str)
        ensures
            r@ == metric_token(self),
    {
        match self {
            CandidateRankMetric::ClauseLoadStddev => "clause_load_stddev",
            CandidateRankMetric::PeakContextWidthShow => "peak_context_width_show",
            CandidateRankMetric::PeakContextWidthAll => "peak_context_width_all",
        }
    }
}

/// The three tokens are pairwise different: their lengths are.
proof fn lemma_tokens_apart()
    ensures
        "clause_load_stddev"@ != "peak_context_width_show"@,
        "clause_load_stddev"@ != "peak_context_width_all"@,
        "peak_context_width_show"@ != "peak_context_width_all"@,
{
    reveal_strlit("clause_load_stddev");
    reveal_strlit("peak_context_width_show");
    reveal_strlit("peak_context_width_all");
    assert("clause_load_stddev"@.len() == 18);
    assert("peak_context_width_show"@.len() == 23);
    assert("peak_context_width_all"@.len() == 22);
}

/// Reading a metric's token back recovers the metric: [`CandidateRankMetric::parse`]
/// is the exact inverse of [`CandidateRankMetric::as_str`].
pub proof fn lemma_metric_token_round_trip(m: CandidateRankMetric)
    ensures
        metric_named(metric_token(m)) == Some(m),
{
    lemma_tokens_apart();
}

/// Distinct metrics have distinct tokens, and a token that parses is the
/// token of the metric it parses to.
pub proof fn lemma_metric_named_is_token(s: Seq<char>)
    ensures
        match metric_named(s) {
            Some(m) => metric_token(m) == s,
            None => forall|m: CandidateRankMetric| metric_token(m) != s,
        },
{
    lemma_tokens_apart();
}

} // verus!
