//! The record written beside a reduced formula: what preprocessing preserved,
//! the lift a consumer multiplies the reduced count by, and the variable
//! correspondences between the two formulas. All variable ids and literals in
//! it are 1-based DIMACS.

use crate::bundle::plumbing::counts_weighted;
use crate::cnf::weights::{lowest_terms_spelling, parts_of, parts_ok};
use crate::cnf::{ExactWeight, LiteralWeight, Mode, Original, Reduced, ShowSet};
use crate::preprocess::{OriginalMap, VarMap};
use crate::text::{ascii_chars, ascii_of, ascii_text, decimal, push_decimal, push_literal};
use vstd::prelude::*;

verus! {

/// Format tag written into every [`PreprocessRecord`]. Bumped whenever a
/// field is added, removed, or changes meaning; a consumer should refuse a tag
/// it does not know.
pub const RECORD_FORMAT_TAG: &'static str = "vitri-preprocess-v1";

/// Which half of the lift carries it, before the record splits it into
/// [`PreprocessRecord::count_lift_pow2`] and [`PreprocessRecord::weight_lift`].
/// Naming one half names the other as neutral.
pub enum RecordLift {
    /// An unweighted mode: the whole lift is `2^k`.
    Pow2(u32),
    /// A weighted mode: the whole lift is this exact rational.
    Weight(ExactWeight),
}

/// A lift whose rational half, if any, is a well-formed weight.
pub open spec fn lift_ok(lift: RecordLift) -> bool {
    match lift {
        RecordLift::Weight(w) => parts_ok(parts_of(w)),
        RecordLift::Pow2(_) => true,
    }
}

/// The rational `1` as the record spells it.
pub open spec fn one_spelling() -> Seq<char> {
    seq!['1', '/', '1']
}

/// `(count_lift_pow2, weight_lift)` for `lift`, the half it is not filled in
/// neutral.
pub open spec fn lift_fields(lift: RecordLift) -> (u32, Seq<char>) {
    match lift {
        RecordLift::Pow2(k) => (k, one_spelling()),
        RecordLift::Weight(w) => (0, lowest_terms_spelling(w.negative, w.numerator@, w.denominator@)),
    }
}

impl RecordLift {
    /// The lift that changes nothing: `2^0`, which is also the rational `1`,
    /// so it is written the same under either mode.
    pub fn neutral() -> (r: Self)
        ensures
            r == RecordLift::Pow2(0),
    {
        RecordLift::Pow2(0)
    }

    /// `(count_lift_pow2, weight_lift)`, with the half this lift is not
    /// filled in neutral.
    pub fn into_fields(self) -> (r: (u32, String))
        requires
            lift_ok(self),
        ensures
            (r.0, r.1@) == lift_fields(self),
    {
        match self {
            RecordLift::Pow2(k) => {
                let mut bytes: Vec<u8> = Vec::new();
                bytes.push(49);
                bytes.push(47);
                bytes.push(49);
                let one = ascii_text(bytes);
                proof {
                    assert(one@ =~= one_spelling());
                }
                (k, one)
            },
            RecordLift::Weight(w) => (0, w.spelling()),
        }
    }
}

/// The machine-readable account of one preprocessing run, written beside
/// `reduced.cnf`.
#[derive(Debug)]
pub struct PreprocessRecord {
    /// Format tag; reading refuses any tag but [`RECORD_FORMAT_TAG`].
    pub format: String,
    /// What preprocessing preserved: the resolved mode.
    pub mode: Mode,
    /// The cardinality half of the lift:
    /// `count(original) == count(reduced) × 2^count_lift_pow2 × weight_lift`.
    /// Always 0 under a weighted mode.
    pub count_lift_pow2: u32,
    /// The weighted half of the lift, exact, as `"numerator/denominator"` in
    /// lowest terms; `"1/1"` under an unweighted mode.
    pub weight_lift: String,
    /// `p cnf` variable count of the original input.
    pub original_num_vars: u32,
    /// The reduced-to-original correspondence, one entry per reduced variable.
    pub reduced_to_original_dimacs: VarMap<Reduced, Original>,
    /// The original-to-reduced correspondence, one entry per original
    /// variable; present under `compile`, absent otherwise.
    pub original_to_reduced_dimacs: Option<OriginalMap>,
    /// Forced (backbone) literals over the original variables.
    pub forced_literals_original_dimacs: Vec<i32>,
    /// Variables removed as free, as original ids.
    pub free_vars_original_dimacs: Vec<u32>,
    /// True when preprocessing already proved the instance unsatisfiable.
    pub unsat: bool,
    /// The show set the reduced count must be taken over, when the mode is
    /// projected (or the input's own under `compile`).
    pub show_vars_reduced_dimacs: Option<ShowSet<Reduced>>,
    /// The literal weights the reduced count must be taken under, in reduced
    /// numbering, when the mode is weighted.
    pub reduced_weights: Option<Vec<LiteralWeight>>,
}

/// The header lines a reduced formula carries to describe itself: the track,
/// the reduced-space show set and the reduced-space weights.
pub struct DimacsHeader<'a> {
    /// The `c t` track, or `None` for no such line.
    pub track: Option<Mode>,
    /// The `c p show` set.
    pub show: Option<&'a ShowSet<Reduced>>,
    /// The `c p weight` rows.
    pub weights: Option<&'a [LiteralWeight]>,
}

/// The lift as one factor, as [`PreprocessRecord::lift`] writes it.
pub open spec fn lift_text(mode: Mode, count_lift_pow2: u32, weight_lift: Seq<char>) -> Seq<char> {
    if counts_weighted(mode) {
        weight_lift
    } else {
        seq!['2', '^'] + ascii_chars(decimal(count_lift_pow2 as nat))
    }
}

/// A weighted count (`wmc` and `pwmc` alike) is lifted by its exact
/// rational; every other count (`mc`, `pmc`, `compile`) by the power of two
/// `2^k`.
pub proof fn lemma_lift_follows_mode(mode: Mode, count_lift_pow2: u32, weight_lift: Seq<char>)
    ensures
        mode == Mode::Wmc ==> lift_text(mode, count_lift_pow2, weight_lift) == weight_lift,
        mode == Mode::Pwmc ==> lift_text(mode, count_lift_pow2, weight_lift) == weight_lift,
        mode == Mode::Mc || mode == Mode::Pmc || mode == Mode::Compile ==> lift_text(mode, count_lift_pow2, weight_lift)
            == seq!['2', '^'] + ascii_chars(decimal(count_lift_pow2 as nat)),
{
}

impl PreprocessRecord {
    /// The record a finished chain starts from: the mode, the lift, the
    /// original variable count and the reduced-to-original map, with every
    /// other field at the value that says there is nothing to report there.
    pub fn new(
        mode: Mode,
        lift: RecordLift,
        original_num_vars: u32,
        reduced_to_original_dimacs: VarMap<Reduced, Original>,
    ) -> (r: Self)
        requires
            lift_ok(lift),
        ensures
            r.format@ == RECORD_FORMAT_TAG@,
            r.mode == mode,
            (r.count_lift_pow2, r.weight_lift@) == lift_fields(lift),
            r.original_num_vars == original_num_vars,
            r.reduced_to_original_dimacs@ == reduced_to_original_dimacs@,
            r.original_to_reduced_dimacs is None,
            r.forced_literals_original_dimacs@.len() == 0,
            r.free_vars_original_dimacs@.len() == 0,
            !r.unsat,
            r.show_vars_reduced_dimacs is None,
            r.reduced_weights is None,
    {
        let (count_lift_pow2, weight_lift) = lift.into_fields();
        PreprocessRecord {
            format: RECORD_FORMAT_TAG.to_string(),
            mode,
            count_lift_pow2,
            weight_lift,
            original_num_vars,
            reduced_to_original_dimacs,
            original_to_reduced_dimacs: None,
            forced_literals_original_dimacs: Vec::new(),
            free_vars_original_dimacs: Vec::new(),
            unsat: false,
            show_vars_reduced_dimacs: None,
            reduced_weights: None,
        }
    }

    /// The lift as one factor: `count(original) = count(reduced) * lift`. A
    /// weighted mode's lift is its rational; every other mode's is `2^k`.
    pub fn lift(&self) -> (r: String)
        ensures
            r@ == lift_text(self.mode, self.count_lift_pow2, self.weight_lift@),
    {
        if self.mode.is_weighted() {
            self.weight_lift.clone()
        } else {
            let mut bytes: Vec<u8> = Vec::new();
            proof {
                reveal_strlit("2^");
            }
            push_literal(&mut bytes, "2^");
            push_decimal(&mut bytes, self.count_lift_pow2 as u64);
            let text = ascii_text(bytes);
            proof {
                assert(ascii_of("2^"@) =~= seq![50u8, 94u8]);
                assert(text@ =~= seq!['2', '^'] + ascii_chars(decimal(self.count_lift_pow2 as nat)));
            }
            text
        }
    }

    /// The header lines `reduced.cnf` carries: no `c t` line under
    /// `compile`, which no track names, and the record's own show set and
    /// weights.
    pub fn dimacs_header(&self) -> (r: DimacsHeader<'_>)
        ensures
            r.track == (if self.mode == Mode::Compile { None } else { Some(self.mode) }),
            r.show == match self.show_vars_reduced_dimacs {
                Some(s) => Some(&s),
                None => None,
            },
            match r.weights {
                Some(w) => self.reduced_weights matches Some(v) && w@ == v@,
                None => self.reduced_weights is None,
            },
    {
        let track = match self.mode {
            Mode::Compile => None,
            m => Some(m),
        };
        let show = match &self.show_vars_reduced_dimacs {
            Some(s) => Some(s),
            None => None,
        };
        let weights = match &self.reduced_weights {
            Some(v) => Some(v.as_slice()),
            None => None,
        };
        DimacsHeader { track, show, weights }
    }
}

} // verus!
