//! The literal weights a weighted count weighs each assignment by.
//!
//! A weight is an exact rational, read from the spellings a DIMACS
//! `c p weight` line uses: a fraction `a/b`, a decimal with an optional
//! `e`/`E` exponent, or a plain integer. [`ExactWeight`] holds one as its sign,
//! numerator digits and denominator digits, exactly as read. Its lowest
//! terms are computed by `num-rational`, which owns the arithmetic on
//! integers of any size, and its canonical spelling
//! ([`ExactWeight::spelling`]) writes them as `numerator/denominator`, which
//! the reader reads back as the same rational.
//!
//! [`WeightTable`] is what the `c p weight` lines of one file declare, and it
//! is sparse on purpose: it records which literals the file actually named.
//! [`LiteralWeight`] is one written row.

pub mod reduce;
pub mod resolved;

use reduce::gcd;

use super::lexer::{all_digits, digits_value, fold_spaces, folded, int_in, is_digit, is_space, read_i64, skip_space, skip_spaces};
use crate::error::{ErrorKind, VitriError};
use vstd::string::StringSliceAdditionalSpecFns;
use crate::text::{
    ascii_chars, ascii_of, ascii_text, decimal, is_ascii_bytes, literal_bytes, push_bytes, push_shown, shown,
};
use num_bigint::{BigInt, Sign};
use vstd::prelude::*;

verus! {

/// Where `s` ends once trailing whitespace is dropped.
pub open spec fn rtrim_end(s: Seq<u8>) -> int
    decreases s.len(),
{
    if s.len() == 0 {
        0
    } else if is_space(s.last()) {
        rtrim_end(s.drop_last())
    } else {
        s.len() as int
    }
}

/// `s` without leading and trailing whitespace.
pub open spec fn trim(s: Seq<u8>) -> Seq<u8> {
    let a = skip_space(s, 0);
    if a >= s.len() {
        Seq::empty()
    } else {
        s.subrange(a, rtrim_end(s))
    }
}

/// `s` without its leading and trailing whitespace, Unicode's included: the
/// span that trimming its folded form keeps, taken from `s` itself.
pub open spec fn trim_text(s: Seq<u8>) -> Seq<u8> {
    let f = folded(s);
    let a = skip_space(f, 0);
    if a >= s.len() {
        Seq::empty()
    } else {
        s.subrange(a, rtrim_end(f))
    }
}

/// The first position at or after `i` holding `c`, or the end.
pub open spec fn find_from(s: Seq<u8>, i: int, c: u8) -> int
    decreases s.len() - i,
{
    if i < 0 {
        0
    } else if i >= s.len() {
        i
    } else if s[i] == c {
        i
    } else {
        find_from(s, i + 1, c)
    }
}

/// The first position at or after `i` holding `e` or `E`, or the end.
pub open spec fn find_exponent(s: Seq<u8>, i: int) -> int
    decreases s.len() - i,
{
    if i < 0 {
        0
    } else if i >= s.len() {
        i
    } else if s[i] == 101 || s[i] == 69 {
        i
    } else {
        find_exponent(s, i + 1)
    }
}

/// The first position at or after `i` holding neither `+` nor `-`, or the end.
pub open spec fn skip_signs(s: Seq<u8>, i: int) -> int
    decreases s.len() - i,
{
    if i < 0 {
        0
    } else if i >= s.len() {
        i
    } else if s[i] == 43 || s[i] == 45 {
        skip_signs(s, i + 1)
    } else {
        i
    }
}

/// `s` without its `_` separators.
pub open spec fn without_separators(s: Seq<u8>) -> Seq<u8>
    decreases s.len(),
{
    if s.len() == 0 {
        Seq::empty()
    } else {
        let rest = without_separators(s.drop_last());
        if s.last() == 95 {
            rest
        } else {
            rest.push(s.last())
        }
    }
}

/// Every byte of `t` is a digit or a `_` separator.
pub open spec fn digits_or_separators(t: Seq<u8>) -> bool {
    forall|i: int| 0 <= i < t.len() ==> is_digit(#[trigger] t[i]) || t[i] == 95
}

/// The unsigned body of a `num-bigint` decimal integer: an optional `+` (not
/// doubled), then digits and `_` separators, not starting with `_`. The digits
/// it spells, separators dropped, or `None`.
pub open spec fn bigint_body(s: Seq<u8>) -> Option<Seq<u8>> {
    let t = if s.len() >= 1 && s[0] == 43 && !(s.len() >= 2 && s[1] == 43) {
        s.drop_first()
    } else {
        s
    };
    if t.len() == 0 || t[0] == 95 {
        None
    } else if digits_or_separators(t) {
        Some(without_separators(t))
    } else {
        None
    }
}

/// A `num-bigint` decimal integer: a `-` (not followed by `+`) before a
/// [`bigint_body`]. Whether it is negative, and its digits, or `None`.
pub open spec fn bigint_text(s: Seq<u8>) -> Option<(bool, Seq<u8>)> {
    if s.len() >= 1 && s[0] == 45 && !(s.len() >= 2 && s[1] == 43) {
        match bigint_body(s.drop_first()) {
            Some(d) => Some((true, d)),
            None => None,
        }
    } else {
        match bigint_body(s) {
            Some(d) => Some((false, d)),
            None => None,
        }
    }
}

/// The integer `num-bigint` reads from `s`, as its sign and its decimal
/// digits: negative only when not zero, the digits without leading zeros.
pub open spec fn bigint_parse(s: Seq<u8>) -> Option<(bool, Seq<u8>)> {
    match bigint_text(s) {
        None => None,
        Some((neg, d)) => Some((neg && digits_value(d) > 0, decimal(digits_value(d)))),
    }
}

/// Every byte of `s` is `0`.
pub open spec fn all_zero(s: Seq<u8>) -> bool {
    forall|i: int| 0 <= i < s.len() ==> #[trigger] s[i] == 48
}

/// `n` zero digits.
pub open spec fn zeros(n: nat) -> Seq<u8> {
    Seq::new(n, |i: int| 48u8)
}

/// What is wrong with a weight token.
#[derive(Clone, Copy, Debug, PartialEq, Eq, Structural)]
pub enum WeightFault {
    /// The numerator of a fraction is no integer.
    Numerator,
    /// The denominator of a fraction is no integer.
    Denominator,
    /// The denominator of a fraction is zero.
    ZeroDenominator,
    /// The exponent of a decimal is no 64-bit integer.
    Exponent,
    /// The digits of a decimal are no integer.
    Value,
}

/// A weight as read: `(negative, numerator digits, denominator digits)`, whose
/// value is the numerator over the denominator, negated when `negative`.
pub type WeightParts = (bool, Seq<u8>, Seq<u8>);

/// The weight a token spells, or what is wrong with it. Its whitespace,
/// Unicode's included, is folded to ASCII spaces, and surrounding whitespace
/// is ignored. A fraction `a/b` is split at its first `/`; anything
/// else is a decimal `[sign]int[.frac][e|E exp]`, whose value is its digits
/// times ten to the exponent less the number of fraction digits.
pub open spec fn weight_spec(raw: Seq<u8>) -> Result<WeightParts, WeightFault> {
    let s = trim(folded(raw));
    let k = find_from(s, 0, 47);
    if k < s.len() {
        match bigint_parse(trim(s.subrange(0, k))) {
            None => Err(WeightFault::Numerator),
            Some((nn, nd)) => match bigint_parse(trim(s.subrange(k + 1, s.len() as int))) {
                None => Err(WeightFault::Denominator),
                Some((dn, dd)) => if all_zero(dd) {
                    Err(WeightFault::ZeroDenominator)
                } else {
                    Ok((nn != dn, nd, dd))
                },
            },
        }
    } else {
        let e = find_exponent(s, 0);
        let exp: Option<int> = if e < s.len() {
            int_in(trim(s.subrange(e + 1, s.len() as int)), true, i64::MIN as int, i64::MAX as int)
        } else {
            Some(0)
        };
        match exp {
            None => Err(WeightFault::Exponent),
            Some(x) => {
                let mantissa = s.subrange(0, e);
                let neg = mantissa.len() >= 1 && mantissa[0] == 45;
                let mant = mantissa.subrange(skip_signs(mantissa, 0), mantissa.len() as int);
                let p = find_from(mant, 0, 46);
                let ip = mant.subrange(0, p);
                let fp = if p < mant.len() {
                    mant.subrange(p + 1, mant.len() as int)
                } else {
                    Seq::empty()
                };
                let digits = if ip.len() + fp.len() == 0 {
                    seq![48u8]
                } else {
                    ip + fp
                };
                match bigint_parse(digits) {
                    None => Err(WeightFault::Value),
                    Some((bn, bd)) => {
                        let scale = x - fp.len();
                        if scale >= 0 {
                            Ok((neg != bn, bd + zeros(scale as nat), seq![49u8]))
                        } else {
                            Ok((neg != bn, bd, seq![49u8] + zeros((-scale) as nat)))
                        }
                    },
                }
            },
        }
    }
}

proof fn lemma_rtrim_end(s: Seq<u8>)
    ensures
        0 <= rtrim_end(s) <= s.len(),
        rtrim_end(s) > 0 ==> !is_space(s[rtrim_end(s) - 1]),
        forall|k: int| rtrim_end(s) <= k < s.len() ==> is_space(#[trigger] s[k]),
        forall|k: int| 0 <= k < s.len() && !is_space(s[k]) ==> k < rtrim_end(s),
    decreases s.len(),
{
    if s.len() > 0 && is_space(s.last()) {
        lemma_rtrim_end(s.drop_last());
        assert forall|k: int| rtrim_end(s) <= k < s.len() implies is_space(#[trigger] s[k]) by {
            if k < s.len() - 1 {
                assert(s.drop_last()[k] == s[k]);
            }
        }
        assert forall|k: int| 0 <= k < s.len() && !is_space(s[k]) implies k < rtrim_end(s) by {
            assert(k < s.len() - 1);
            assert(s.drop_last()[k] == s[k]);
        }
    }
}

proof fn lemma_skip_space_bound(s: Seq<u8>, i: int)
    requires
        0 <= i <= s.len(),
    ensures
        i <= skip_space(s, i) <= s.len(),
        skip_space(s, i) < s.len() ==> !is_space(s[skip_space(s, i)]),
    decreases s.len() - i,
{
    if i < s.len() && is_space(s[i]) {
        lemma_skip_space_bound(s, i + 1);
    }
}

/// The span of `s` that [`trim`] keeps.
pub(crate) fn trim_span(s: &[u8]) -> (r: (usize, usize))
    ensures
        r.0 <= r.1 <= s@.len(),
        s@.subrange(r.0 as int, r.1 as int) == trim(s@),
        r.0 == skip_space(s@, 0),
        r.0 < s@.len() ==> r.1 == rtrim_end(s@),
{
    proof {
        lemma_skip_space_bound(s@, 0);
        lemma_rtrim_end(s@);
    }
    let a = skip_spaces(s, 0);
    if a >= s.len() {
        return (a, a);
    }
    let mut b = s.len();
    while b > a && (s[b - 1] == 32 || s[b - 1] == 9 || s[b - 1] == 10 || s[b - 1] == 11 || s[b - 1]
        == 12 || s[b - 1] == 13)
        invariant
            a < s@.len(),
            !is_space(s@[a as int]),
            a <= b <= s@.len(),
            rtrim_end(s@) <= b,
            forall|k: int| 0 <= k < s@.len() && !is_space(s@[k]) ==> k < rtrim_end(s@),
            forall|k: int| rtrim_end(s@) <= k < s@.len() ==> is_space(#[trigger] s@[k]),
            rtrim_end(s@) > 0 ==> !is_space(s@[rtrim_end(s@) - 1]),
        decreases b,
    {
        b = b - 1;
    }
    proof {
        if b > rtrim_end(s@) {
            assert(is_space(s@[b - 1]));
            assert(b == a);
            assert(a < rtrim_end(s@));
        }
    }
    (a, b)
}

/// The span of `s` that [`trim_text`] keeps.
pub(crate) fn trim_text_span(s: &[u8]) -> (r: (usize, usize))
    ensures
        r.0 <= r.1 <= s@.len(),
        s@.subrange(r.0 as int, r.1 as int) == trim_text(s@),
{
    let f = fold_spaces(s);
    trim_span(f.as_slice())
}

/// The first position at or after `i` holding `c`, or the end.
pub(crate) fn find_byte(s: &[u8], i: usize, c: u8) -> (r: usize)
    requires
        i <= s@.len(),
    ensures
        r == find_from(s@, i as int, c),
        i <= r <= s@.len(),
        r < s@.len() ==> s@[r as int] == c,
{
    let mut j = i;
    while j < s.len() && s[j] != c
        invariant
            i <= j <= s@.len(),
            find_from(s@, j as int, c) == find_from(s@, i as int, c),
        decreases s@.len() - j,
    {
        j = j + 1;
    }
    j
}

/// The first position at or after `i` holding `e` or `E`, or the end.
fn find_exp(s: &[u8], i: usize) -> (r: usize)
    requires
        i <= s@.len(),
    ensures
        r == find_exponent(s@, i as int),
        i <= r <= s@.len(),
{
    let mut j = i;
    while j < s.len() && s[j] != 101 && s[j] != 69
        invariant
            i <= j <= s@.len(),
            find_exponent(s@, j as int) == find_exponent(s@, i as int),
        decreases s@.len() - j,
    {
        j = j + 1;
    }
    j
}

/// The first position at or after `i` holding neither `+` nor `-`.
fn skip_sign_bytes(s: &[u8], i: usize) -> (r: usize)
    requires
        i <= s@.len(),
    ensures
        r == skip_signs(s@, i as int),
        i <= r <= s@.len(),
{
    let mut j = i;
    while j < s.len() && (s[j] == 43 || s[j] == 45)
        invariant
            i <= j <= s@.len(),
            skip_signs(s@, j as int) == skip_signs(s@, i as int),
        decreases s@.len() - j,
    {
        j = j + 1;
    }
    j
}

/// `BigInt::parse_bytes` in base ten, read back as the sign and the decimal
/// digits of the magnitude. `num-bigint` reads an optional `-` (not followed
/// by `+`), an optional `+` (not doubled), then digits and `_` separators not
/// led by a separator ([`bigint_text`]); it refuses anything else. The sign is
/// negative only for a nonzero value, and the magnitude prints without
/// leading zeros.
#[verifier::external_body]
fn parse_bigint(t: &[u8]) -> (r: Option<(bool, Vec<u8>)>)
    ensures
        match r {
            Some((neg, d)) => bigint_parse(t@) == Some((neg, d@)),
            None => bigint_parse(t@) is None,
        },
{
    match BigInt::parse_bytes(t, 10) {
        None => None,
        Some(b) => Some((b.sign() == Sign::Minus, b.magnitude().to_string().into_bytes())),
    }
}

/// `s[from..to]` as a new vector.
pub(crate) fn copy_span(s: &[u8], from: usize, to: usize) -> (r: Vec<u8>)
    requires
        from <= to <= s@.len(),
    ensures
        r@ == s@.subrange(from as int, to as int),
{
    let mut out: Vec<u8> = Vec::new();
    let mut i = from;
    while i < to
        invariant
            from <= i <= to <= s@.len(),
            out@ == s@.subrange(from as int, i as int),
        decreases to - i,
    {
        out.push(s[i]);
        proof {
            assert(s@.subrange(from as int, i + 1) == s@.subrange(from as int, i as int).push(s@[i as int]));
        }
        i = i + 1;
    }
    out
}

/// `s[from..]` as a new vector.
fn slice_from(s: &[u8], from: usize) -> (r: Vec<u8>)
    requires
        from <= s@.len(),
    ensures
        r@ == s@.subrange(from as int, s@.len() as int),
{
    copy_span(s, from, s.len())
}

/// `s` trimmed, as a new vector.
fn trimmed(s: &[u8]) -> (r: Vec<u8>)
    ensures
        r@ == trim(s@),
{
    let (a, b) = trim_span(s);
    copy_span(s, a, b)
}

/// Appends `n` zero digits to `v`.
fn push_zeros(v: &mut Vec<u8>, n: u128)
    ensures
        final(v)@ == old(v)@ + zeros(n as nat),
{
    let mut i: u128 = 0;
    while i < n
        invariant
            i <= n,
            v@ == old(v)@ + zeros(i as nat),
        decreases n - i,
    {
        v.push(48);
        proof {
            assert(old(v)@ + zeros((i + 1) as nat) == (old(v)@ + zeros(i as nat)).push(48u8));
        }
        i = i + 1;
    }
}

/// An exact rational weight as read: the numerator's digits over the
/// denominator's, negated when `negative`. Neither is reduced; two spellings
/// of one value may differ here, and agree in [`ExactWeight::spelling`].
#[derive(Clone, Debug, PartialEq, Eq)]
pub struct ExactWeight {
    /// Whether the value is negative.
    pub negative: bool,
    /// The numerator's decimal digits.
    pub numerator: Vec<u8>,
    /// The denominator's decimal digits; never all zero.
    pub denominator: Vec<u8>,
}

/// The parts of a weight.
pub open spec fn parts_of(w: ExactWeight) -> WeightParts {
    (w.negative, w.numerator@, w.denominator@)
}

/// The parts describe a rational: two runs of digits, the second not zero.
pub open spec fn parts_ok(p: WeightParts) -> bool {
    all_digits(p.1) && all_digits(p.2) && !all_zero(p.2)
}

/// The fraction `±n/d` in lowest terms: numerator and denominator divided by
/// their greatest common divisor, each in decimal, negative only when the
/// numerator is not zero.
pub open spec fn reduced_parts(negative: bool, n: nat, d: nat) -> WeightParts {
    let g = gcd(n, d);
    (negative && n > 0, decimal(n / g), decimal(d / g))
}

/// The lowest terms of a weight given as its sign and digits.
pub open spec fn lowest_terms_parts(negative: bool, numerator: Seq<u8>, denominator: Seq<u8>) -> WeightParts {
    reduced_parts(negative, digits_value(numerator), digits_value(denominator))
}

/// `n`, negated when `negative`.
pub open spec fn signed(negative: bool, n: nat) -> int {
    if negative {
        -(n as int)
    } else {
        n as int
    }
}

/// Digits all zero spell zero.
proof fn lemma_zero_digits(s: Seq<u8>)
    requires
        all_zero(s),
    ensures
        digits_value(s) == 0,
    decreases s.len(),
{
    if s.len() > 0 {
        assert(s[s.len() - 1] == 48);
        assert(all_zero(s.drop_last())) by {
            assert forall|i: int| 0 <= i < s.drop_last().len() implies #[trigger] s.drop_last()[i] == 48 by {
                assert(s[i] == 48);
            }
        }
        lemma_zero_digits(s.drop_last());
    }
}

/// Digits not all zero spell a positive number.
pub(crate) proof fn lemma_nonzero_digits(s: Seq<u8>)
    requires
        all_digits(s),
        !all_zero(s),
    ensures
        digits_value(s) > 0,
    decreases s.len(),
{
    let f = s.drop_last();
    assert(is_digit(s[s.len() - 1]));
    if s.last() == 48 {
        let k = choose|k: int| 0 <= k < s.len() && s[k] != 48;
        assert(k < s.len() - 1);
        assert(f[k] == s[k]);
        assert(all_digits(f)) by {
            assert forall|i: int| 0 <= i < f.len() implies is_digit(#[trigger] f[i]) by {
                assert(f[i] == s[i]);
            }
        }
        lemma_nonzero_digits(f);
    }
}

/// A fraction with a positive denominator reduces to a rational weight of
/// the same value, printed as `num-bigint` prints integers.
pub proof fn lemma_reduced_parts(negative: bool, n: nat, d: nat)
    requires
        d > 0,
    ensures
        parts_ok(reduced_parts(negative, n, d)),
        printed_parts(reduced_parts(negative, n, d)),
        resolved::weight_num(reduced_parts(negative, n, d)) * (d as int) == signed(negative, n)
            * resolved::weight_den(reduced_parts(negative, n, d)),
{
    reduce::lemma_reduced_coprime(n, d);
    reduce::lemma_reduced_value(n, d);
    let g = gcd(n, d);
    let a = n / g;
    let b = d / g;
    super::reread::lemma_decimal(a);
    super::reread::lemma_decimal(b);
    if all_zero(decimal(b)) {
        lemma_zero_digits(decimal(b));
    }
    if n > 0 {
        assert(a > 0) by (nonlinear_arith)
            requires
                n == g * a,
                n > 0,
        ;
    } else {
        assert(a == 0) by (nonlinear_arith)
            requires
                n == g * a,
                n == 0,
                g > 0,
        ;
    }
    let q = reduced_parts(negative, n, d);
    assert(resolved::weight_num(q) == signed(negative, a));
    assert(resolved::weight_den(q) == b);
    assert(signed(negative, a) * (d as int) == signed(negative, n) * (b as int)) by (nonlinear_arith)
        requires
            a * d == n * b,
            signed(negative, a) == if negative { -(a as int) } else { a as int },
            signed(negative, n) == if negative { -(n as int) } else { n as int },
    ;
}

/// Two fractions of the same value, with positive denominators, have the
/// same lowest terms.
pub proof fn lemma_reduced_parts_unique(neg1: bool, n1: nat, d1: nat, neg2: bool, n2: nat, d2: nat)
    requires
        d1 > 0,
        d2 > 0,
        signed(neg1, n1) * (d2 as int) == signed(neg2, n2) * (d1 as int),
    ensures
        reduced_parts(neg1, n1, d1) == reduced_parts(neg2, n2, d2),
{
    if neg1 == neg2 {
        assert(n1 * d2 == n2 * d1) by (nonlinear_arith)
            requires
                signed(neg1, n1) * (d2 as int) == signed(neg2, n2) * (d1 as int),
                neg1 == neg2,
                signed(neg1, n1) == if neg1 { -(n1 as int) } else { n1 as int },
                signed(neg2, n2) == if neg2 { -(n2 as int) } else { n2 as int },
        ;
    } else {
        assert(n1 == 0 && n2 == 0) by (nonlinear_arith)
            requires
                signed(neg1, n1) * (d2 as int) == signed(neg2, n2) * (d1 as int),
                neg1 != neg2,
                signed(neg1, n1) == if neg1 { -(n1 as int) } else { n1 as int },
                signed(neg2, n2) == if neg2 { -(n2 as int) } else { n2 as int },
                d1 > 0,
                d2 > 0,
        ;
    }
    if n1 > 0 {
        assert(n2 > 0) by (nonlinear_arith)
            requires
                n1 * d2 == n2 * d1,
                n1 > 0,
                d2 > 0,
        ;
    }
    if n2 > 0 {
        assert(n1 > 0) by (nonlinear_arith)
            requires
                n1 * d2 == n2 * d1,
                n2 > 0,
                d1 > 0,
        ;
    }
    reduce::lemma_reduced_unique(n1, d1, n2, d2);
}

/// A rational weight's lowest terms are a rational weight of the same value,
/// printed as `num-bigint` prints integers, and equal weights have equal
/// lowest terms.
pub proof fn lemma_lowest_terms(p: WeightParts, q: WeightParts)
    requires
        parts_ok(p),
        parts_ok(q),
    ensures
        parts_ok(lowest_terms_parts(p.0, p.1, p.2)),
        printed_parts(lowest_terms_parts(p.0, p.1, p.2)),
        resolved::same_rational(p, lowest_terms_parts(p.0, p.1, p.2)),
        resolved::same_rational(p, q) ==> lowest_terms_parts(p.0, p.1, p.2) == lowest_terms_parts(q.0, q.1, q.2),
{
    lemma_nonzero_digits(p.2);
    lemma_nonzero_digits(q.2);
    let np = digits_value(p.1);
    let dp = digits_value(p.2);
    lemma_reduced_parts(p.0, np, dp);
    let r = lowest_terms_parts(p.0, p.1, p.2);
    assert(resolved::weight_num(p) == signed(p.0, np));
    assert(resolved::weight_den(p) == dp);
    if resolved::same_rational(p, q) {
        assert(resolved::weight_num(q) == signed(q.0, digits_value(q.1)));
        lemma_reduced_parts_unique(p.0, np, dp, q.0, digits_value(q.1), digits_value(q.2));
    }
}

/// Parts as `num-bigint` prints integers: each run of digits without a
/// leading zero, and negative only for a nonzero numerator.
pub open spec fn printed_parts(p: WeightParts) -> bool {
    &&& p.1 == decimal(digits_value(p.1))
    &&& p.2 == decimal(digits_value(p.2))
    &&& p.0 ==> digits_value(p.1) > 0
}

/// The bytes a weight is written with: a `-` before a negative numerator,
/// then the numerator, `/` and the denominator.
pub open spec fn spelling_bytes(p: WeightParts) -> Seq<u8> {
    (if p.0 {
        seq![45u8]
    } else {
        Seq::empty()
    }) + p.1 + seq![47u8] + p.2
}

/// The spelling every written weight uses: its lowest terms, with a positive
/// denominator, as `numerator/denominator`.
pub open spec fn lowest_terms_spelling(negative: bool, numerator: Seq<u8>, denominator: Seq<u8>) -> Seq<char> {
    ascii_chars(spelling_bytes(lowest_terms_parts(negative, numerator, denominator)))
}

/// Reads a weight token: a fraction `a/b`, a decimal `[-]d.ddd` with an
/// optional `e`/`E` exponent, or a plain integer. Exact throughout; no `f64`
/// rounding.
pub fn parse_weight(s: &[u8]) -> (r: Result<ExactWeight, WeightFault>)
    ensures
        match r {
            Ok(w) => weight_spec(s@) == Ok::<WeightParts, WeightFault>(parts_of(w)),
            Err(f) => weight_spec(s@) == Err::<WeightParts, WeightFault>(f),
        },
{
    let f = fold_spaces(s);
    let t = trimmed(f.as_slice());
    let k = find_byte(t.as_slice(), 0, 47);
    if k < t.len() {
        let n = trimmed(copy_span(&t, 0, k).as_slice());
        let d = trimmed(slice_from(&t, k + 1).as_slice());
        match parse_bigint(&n) {
            None => Err(WeightFault::Numerator),
            Some((nn, nd)) => match parse_bigint(&d) {
                None => Err(WeightFault::Denominator),
                Some((dn, dd)) => {
                    let mut zero = true;
                    let mut i: usize = 0;
                    while i < dd.len()
                        invariant
                            i <= dd@.len(),
                            zero == (forall|j: int| 0 <= j < i ==> #[trigger] dd@[j] == 48),
                        decreases dd@.len() - i,
                    {
                        if dd[i] != 48 {
                            zero = false;
                        }
                        i = i + 1;
                    }
                    if zero {
                        Err(WeightFault::ZeroDenominator)
                    } else {
                        Ok(ExactWeight { negative: nn != dn, numerator: nd, denominator: dd })
                    }
                },
            },
        }
    } else {
        let e = find_exp(&t, 0);
        let mut exp: i64 = 0;
        if e < t.len() {
            let x = trimmed(slice_from(&t, e + 1).as_slice());
            match read_i64(&x) {
                Some(v) => {
                    exp = v;
                },
                None => {
                    return Err(WeightFault::Exponent);
                },
            }
        }
        let mantissa = copy_span(&t, 0, e);
        let neg = mantissa.len() >= 1 && mantissa[0] == 45;
        let m0 = skip_sign_bytes(&mantissa, 0);
        let mant = slice_from(&mantissa, m0);
        let p = find_byte(&mant, 0, 46);
        let ip = copy_span(&mant, 0, p);
        let fp: Vec<u8> = if p < mant.len() {
            slice_from(&mant, p + 1)
        } else {
            Vec::new()
        };
        let mut digits: Vec<u8> = Vec::new();
        if ip.len() == 0 && fp.len() == 0 {
            digits.push(48);
        } else {
            push_bytes(&mut digits, &ip);
            push_bytes(&mut digits, &fp);
        }
        proof {
            assert(digits@ == (if ip@.len() + fp@.len() == 0 {
                seq![48u8]
            } else {
                ip@ + fp@
            }));
        }
        match parse_bigint(&digits) {
            None => Err(WeightFault::Value),
            Some((bn, bd)) => {
                let flen = fp.len() as i128;
                let scale: i128 = exp as i128 - flen;
                if scale >= 0 {
                    let mut num = bd;
                    push_zeros(&mut num, scale as u128);
                    let mut den: Vec<u8> = Vec::new();
                    den.push(49);
                    Ok(ExactWeight { negative: neg != bn, numerator: num, denominator: den })
                } else {
                    let mut den: Vec<u8> = Vec::new();
                    den.push(49);
                    let down: i128 = -scale;
                    push_zeros(&mut den, down as u128);
                    Ok(ExactWeight { negative: neg != bn, numerator: bd, denominator: den })
                }
            },
        }
    }
}

/// The first `c` in `s` from `i` on is at `j` when none comes before it.
pub(crate) proof fn lemma_find_at(s: Seq<u8>, i: int, j: int, c: u8)
    requires
        0 <= i <= j < s.len(),
        forall|k: int| i <= k < j ==> (#[trigger] s[k]) != c,
        s[j] == c,
    ensures
        find_from(s, i, c) == j,
    decreases j - i,
{
    if i < j {
        lemma_find_at(s, i + 1, j, c);
    }
}

/// Text that neither starts nor ends with whitespace is its own trim.
proof fn lemma_trim_plain(t: Seq<u8>)
    requires
        t.len() >= 1,
        !is_space(t[0]),
        !is_space(t.last()),
    ensures
        trim(t) == t,
{
    assert(skip_space(t, 0) == 0);
    assert(rtrim_end(t) == t.len());
    assert(t.subrange(0, t.len() as int) =~= t);
}

/// Digits hold no separator to drop.
proof fn lemma_no_separators(d: Seq<u8>)
    requires
        forall|i: int| 0 <= i < d.len() ==> is_digit(#[trigger] d[i]),
    ensures
        without_separators(d) == d,
    decreases d.len(),
{
    if d.len() > 0 {
        assert(is_digit(d[d.len() - 1]));
        lemma_no_separators(d.drop_last());
        assert(d.drop_last().push(d.last()) =~= d);
    }
}

/// A run of printed digits, alone or after a `-`, reads back through
/// `num-bigint` as itself.
proof fn lemma_printed_integer(d: Seq<u8>, negative: bool)
    requires
        all_digits(d),
        d == decimal(digits_value(d)),
        negative ==> digits_value(d) > 0,
    ensures
        bigint_parse((if negative { seq![45u8] } else { Seq::empty() }) + d) == Some((negative, d)),
{
    let t = (if negative { seq![45u8] } else { Seq::<u8>::empty() }) + d;
    lemma_no_separators(d);
    assert(is_digit(d[0]));
    assert(digits_or_separators(d)) by {
        assert forall|i: int| 0 <= i < d.len() implies is_digit(#[trigger] d[i]) || d[i] == 95 by {}
    }
    assert(bigint_body(d) == Some(d));
    if negative {
        assert(t.drop_first() =~= d);
        assert(t[1] == d[0]);
    } else {
        assert(t =~= d);
    }
}

/// A weight written in its printed form reads back as the same parts: the
/// reader gives every written weight back.
pub proof fn lemma_written_weight_reads_back(p: WeightParts)
    requires
        parts_ok(p),
        printed_parts(p),
    ensures
        weight_spec(spelling_bytes(p)) == Ok::<WeightParts, WeightFault>(p),
{
    let s = spelling_bytes(p);
    let sign: Seq<u8> = if p.0 { seq![45u8] } else { Seq::empty() };
    let k: int = (sign.len() + p.1.len()) as int;
    assert(s =~= sign + p.1 + seq![47u8] + p.2);
    assert forall|i: int| 0 <= i < s.len() implies #[trigger] s[i] < 128 by {
        if i >= sign.len() && i < k {
            assert(s[i] == p.1[i - sign.len()]);
            assert(is_digit(p.1[i - sign.len()]));
        } else if i > k {
            assert(s[i] == p.2[i - k - 1]);
            assert(is_digit(p.2[i - k - 1]));
        }
    }
    super::lexer::lemma_ascii_text(s, 0);
    assert(s.subrange(0, s.len() as int) =~= s);
    assert(folded(s) == s);
    assert(is_digit(p.2[p.2.len() - 1]));
    assert(s.last() == p.2[p.2.len() - 1]);
    if p.0 {
        assert(s[0] == 45);
    } else {
        assert(s[0] == p.1[0]);
        assert(is_digit(p.1[0]));
    }
    lemma_trim_plain(s);
    assert forall|q: int| 0 <= q < k implies (#[trigger] s[q]) != 47 by {
        if q >= sign.len() {
            assert(s[q] == p.1[q - sign.len()]);
            assert(is_digit(p.1[q - sign.len()]));
        }
    }
    assert(s[k] == 47);
    lemma_find_at(s, 0, k, 47);
    let num = s.subrange(0, k);
    assert(num =~= sign + p.1);
    assert(is_digit(p.1[p.1.len() - 1]));
    assert(num.last() == p.1[p.1.len() - 1]);
    assert(num[0] == s[0]);
    lemma_trim_plain(num);
    lemma_printed_integer(p.1, p.0);
    let den = s.subrange(k + 1, s.len() as int);
    assert(den =~= p.2);
    assert(is_digit(p.2[0]));
    lemma_trim_plain(den);
    lemma_printed_integer(p.2, false);
    assert(Seq::<u8>::empty() + p.2 =~= p.2);
}

/// A weight reduced by `num-rational`: `BigRational::new` over the two
/// integers the digits spell divides both by their greatest common divisor
/// (the denominator is already positive), and the numerator and denominator
/// are read back as sign and decimal digits, as `num-bigint` prints them:
/// without leading zeros, and negative only when not zero.
#[verifier::external_body]
fn lowest_terms(negative: bool, numerator: &[u8], denominator: &[u8]) -> (r: ExactWeight)
    requires
        all_digits(numerator@),
        all_digits(denominator@),
        !all_zero(denominator@),
    ensures
        parts_of(r) == lowest_terms_parts(negative, numerator@, denominator@),
{
    let sign = if negative { Sign::Minus } else { Sign::Plus };
    let n = num_bigint::BigUint::parse_bytes(numerator, 10).unwrap_or_default();
    let d = num_bigint::BigUint::parse_bytes(denominator, 10).unwrap_or_default();
    let r = num_rational::BigRational::new(BigInt::from_biguint(sign, n), BigInt::from_biguint(Sign::Plus, d));
    ExactWeight {
        negative: r.numer().sign() == Sign::Minus,
        numerator: r.numer().magnitude().to_string().into_bytes(),
        denominator: r.denom().magnitude().to_string().into_bytes(),
    }
}

/// Whether `d` is a nonempty run of decimal digits, and whether all of them
/// are zero.
fn digit_run(d: &[u8]) -> (r: (bool, bool))
    ensures
        r.0 == all_digits(d@),
        r.1 == all_zero(d@),
{
    let mut digits = d.len() >= 1;
    let mut zero = true;
    let mut i: usize = 0;
    while i < d.len()
        invariant
            i <= d@.len(),
            digits == (d@.len() >= 1 && forall|k: int| 0 <= k < i ==> is_digit(#[trigger] d@[k])),
            zero == forall|k: int| 0 <= k < i ==> #[trigger] d@[k] == 48,
        decreases d@.len() - i,
    {
        if !(48 <= d[i] && d[i] <= 57) {
            digits = false;
        }
        if d[i] != 48 {
            zero = false;
        }
        i = i + 1;
    }
    (digits, zero)
}

impl ExactWeight {
    /// Whether this weight describes a rational: two runs of digits, the
    /// denominator's not all zero. Every weight the reader produces does.
    pub fn is_rational(&self) -> (r: bool)
        ensures
            r == parts_ok(parts_of(*self)),
    {
        let (num_digits, _) = digit_run(self.numerator.as_slice());
        let (den_digits, den_zero) = digit_run(self.denominator.as_slice());
        num_digits && den_digits && !den_zero
    }

    /// The weight as `"numerator/denominator"` in lowest terms with a positive
    /// denominator — the spelling every written weight uses, so two equal
    /// weights always produce the same string, and reading it back gives the
    /// same rational.
    pub fn spelling(&self) -> (r: String)
        requires
            parts_ok(parts_of(*self)),
        ensures
            r@ == lowest_terms_spelling(self.negative, self.numerator@, self.denominator@),
            ({
                let q = lowest_terms_parts(self.negative, self.numerator@, self.denominator@);
                &&& resolved::same_rational(parts_of(*self), q)
                &&& weight_spec(spelling_bytes(q)) == Ok::<WeightParts, WeightFault>(q)
            }),
            forall|q: WeightParts| parts_ok(q) && resolved::same_rational(parts_of(*self), q)
                ==> #[trigger] lowest_terms_spelling(q.0, q.1, q.2) == r@,
    {
        let r = lowest_terms(self.negative, self.numerator.as_slice(), self.denominator.as_slice());
        let mut out: Vec<u8> = Vec::new();
        if r.negative {
            out.push(45);
        }
        push_bytes(&mut out, r.numerator.as_slice());
        out.push(47);
        push_bytes(&mut out, r.denominator.as_slice());
        proof {
            let p = parts_of(r);
            lemma_lowest_terms(parts_of(*self), parts_of(*self));
            assert forall|q: WeightParts| parts_ok(q) && resolved::same_rational(parts_of(*self), q) implies
                #[trigger] lowest_terms_spelling(q.0, q.1, q.2) == lowest_terms_spelling(self.negative, self.numerator@, self.denominator@) by {
                lemma_lowest_terms(parts_of(*self), q);
            }
            lemma_written_weight_reads_back(p);
            assert(out@ =~= spelling_bytes(p));
            assert forall|i: int| 0 <= i < out@.len() implies #[trigger] out@[i] < 128 by {
                let sign_len: int = if p.0 { 1 } else { 0 };
                if i >= sign_len && i < sign_len + p.1.len() {
                    assert(is_digit(p.1[i - sign_len]));
                } else if i > sign_len + p.1.len() {
                    assert(is_digit(p.2[i - sign_len - p.1.len() - 1]));
                }
            }
        }
        ascii_text(out)
    }
}

/// The words a weight fault is reported in, before the token.
pub open spec fn weight_fault_prefix(f: WeightFault) -> Seq<u8> {
    match f {
        WeightFault::Numerator => ascii_of("invalid weight numerator: "@),
        WeightFault::Denominator => ascii_of("invalid weight denominator: "@),
        WeightFault::ZeroDenominator => ascii_of("zero denominator in weight: "@),
        WeightFault::Exponent => ascii_of("invalid weight exponent: "@),
        WeightFault::Value => ascii_of("invalid weight value: "@),
    }
}

/// The sentence reporting fault `f` in the weight token `raw`: what is wrong,
/// then the token as read, without surrounding whitespace.
pub open spec fn weight_fault_text(f: WeightFault, raw: Seq<u8>) -> Seq<u8> {
    weight_fault_prefix(f) + shown(trim_text(raw))
}

impl WeightFault {
    /// The sentence reporting this fault in the weight token `raw`.
    pub fn describe(self, raw: &[u8]) -> (r: Vec<u8>)
        ensures
            r@ == weight_fault_text(self, raw@),
            is_ascii_bytes(r@),
    {
        let mut out = match self {
            WeightFault::Numerator => {
                proof { reveal_strlit("invalid weight numerator: "); }
                literal_bytes("invalid weight numerator: ")
            },
            WeightFault::Denominator => {
                proof { reveal_strlit("invalid weight denominator: "); }
                literal_bytes("invalid weight denominator: ")
            },
            WeightFault::ZeroDenominator => {
                proof { reveal_strlit("zero denominator in weight: "); }
                literal_bytes("zero denominator in weight: ")
            },
            WeightFault::Exponent => {
                proof { reveal_strlit("invalid weight exponent: "); }
                literal_bytes("invalid weight exponent: ")
            },
            WeightFault::Value => {
                proof { reveal_strlit("invalid weight value: "); }
                literal_bytes("invalid weight value: ")
            },
        };
        let (a, b) = trim_text_span(raw);
        push_shown(&mut out, &raw[a..b]);
        out
    }
}

/// Parse a weight token into an exact rational — the spellings a DIMACS
/// `c p weight` line uses: a fraction `a/b`, a decimal with an optional
/// `e`/`E` exponent, or a plain integer. Surrounding whitespace is ignored.
///
/// # Errors
///
/// [`VitriError`] of kind `input` naming the token that could not be read.
pub fn parse_rational_weight(s: &str) -> (r: Result<ExactWeight, VitriError>)
    ensures
        match weight_spec(s.spec_bytes()) {
            Ok(p) => r is Ok && parts_of(r->Ok_0) == p,
            Err(f) => r is Err && r->Err_0.spec_kind() == ErrorKind::Input
                && r->Err_0.text() == ascii_chars(weight_fault_text(f, s.spec_bytes())),
        },
{
    let b = s.as_bytes();
    match parse_weight(b) {
        Ok(w) => Ok(w),
        Err(f) => {
            let text = ascii_text(f.describe(b));
            Err(VitriError::input(text.as_str()))
        },
    }
}

/// The magnitude of a nonzero DIMACS literal: the variable it names.
pub open spec fn lit_var(lit: int) -> int {
    if lit < 0 {
        -lit
    } else {
        lit
    }
}

/// Per-literal weights parsed from `c p weight <lit> <w> 0` lines: for each
/// variable, the weight of its positive and of its negative literal, or `None`
/// where the file left that literal unspecified (weight 1 by the competition
/// convention).
#[derive(Debug)]
pub struct WeightTable {
    w_pos: Vec<Option<ExactWeight>>,
    w_neg: Vec<Option<ExactWeight>>,
}

impl WeightTable {
    #[verifier::type_invariant]
    spec fn shaped(self) -> bool {
        &&& self.w_pos@.len() == self.w_neg@.len()
        &&& self.w_pos@.len() <= 2147483648
        &&& forall|v: int| 0 <= v < self.w_pos@.len() && (#[trigger] self.w_pos@[v]) is Some ==> v + 1 <= i32::MAX
    }

    /// How many variables the table reaches: the widest one a weight was set
    /// on.
    pub closed spec fn span(&self) -> nat {
        self.w_pos@.len()
    }

    /// The weight the table holds for the nonzero DIMACS literal `lit`.
    pub closed spec fn declared(&self, lit: int) -> Option<ExactWeight> {
        let v = lit_var(lit) - 1;
        if lit == 0 || v >= self.w_pos@.len() {
            None
        } else if lit > 0 {
            self.w_pos@[v]
        } else {
            self.w_neg@[v]
        }
    }

    /// The table that weighs nothing.
    pub fn new() -> (r: Self)
        ensures
            r.span() == 0,
            forall|l: int| #[trigger] r.declared(l) is None,
    {
        WeightTable { w_pos: Vec::new(), w_neg: Vec::new() }
    }

    /// Weigh `lit` (a nonzero signed DIMACS literal), replacing any weight it
    /// had. The table grows to reach `|lit|`.
    #[verifier::rlimit(30)]
    pub fn set(&mut self, lit: i32, w: ExactWeight)
        requires
            lit != 0,
        ensures
            final(self).span() == if lit_var(lit as int) > old(self).span() {
                lit_var(lit as int) as nat
            } else {
                old(self).span()
            },
            forall|l: int| #[trigger] final(self).declared(l) == if l == lit {
                Some(w)
            } else {
                old(self).declared(l)
            },
    {
        proof {
            use_type_invariant(&*self);
        }
        let mag: u32 = if lit < 0 {
            if lit == i32::MIN {
                2147483648
            } else {
                (-lit) as u32
            }
        } else {
            lit as u32
        };
        let v: usize = (mag - 1) as usize;
        let mut taken = WeightTable::new();
        std::mem::swap(&mut taken, self);
        proof {
            use_type_invariant(&taken);
        }
        let WeightTable { w_pos: mut pos, w_neg: mut neg } = taken;
        let ghost p0 = pos@;
        let ghost n0 = neg@;
        while pos.len() <= v
            invariant
                pos@.len() == neg@.len(),
                p0.len() == n0.len(),
                p0.len() <= pos@.len(),
                pos@.len() <= v + 1 || pos@.len() == p0.len(),
                v < 2147483648,
                p0.len() <= 2147483648,
                forall|k: int| 0 <= k < p0.len() ==> #[trigger] pos@[k] == p0[k] && neg@[k] == n0[k],
                forall|k: int| p0.len() <= k < pos@.len() ==> (#[trigger] pos@[k]) is None && neg@[k] is None,
            decreases v + 1 - pos@.len(),
        {
            pos.push(None);
            neg.push(None);
        }
        let ghost p1 = pos@;
        let ghost n1 = neg@;
        if lit > 0 {
            pos.set(v, Some(w));
        } else {
            neg.set(v, Some(w));
        }
        let ghost t0 = WeightTable { w_pos: pos, w_neg: neg };
        proof {
            assert forall|l: int| #[trigger] t0.declared(l) == if l == lit {
                Some(w)
            } else {
                old(self).declared(l)
            } by {
                let vl = lit_var(l) - 1;
                if l != 0 && l != lit {
                    if vl < p0.len() {
                        assert(p1[vl] == p0[vl] && n1[vl] == n0[vl]);
                    } else if vl < p1.len() {
                        assert(p1[vl] is None && n1[vl] is None);
                    }
                }
            }
        }
        *self = WeightTable { w_pos: pos, w_neg: neg };
    }

    /// The weight the table holds for `lit`, if any.
    pub fn get(&self, lit: i32) -> (r: Option<&ExactWeight>)
        ensures
            match self.declared(lit as int) {
                Some(w) => r == Some(&w),
                None => r is None,
            },
    {
        proof {
            use_type_invariant(self);
        }
        if lit == 0 {
            return None;
        }
        let mag: u32 = if lit < 0 {
            if lit == i32::MIN {
                2147483648
            } else {
                (-lit) as u32
            }
        } else {
            lit as u32
        };
        let v: usize = (mag - 1) as usize;
        if v >= self.w_pos.len() {
            return None;
        }
        if lit > 0 {
            match &self.w_pos[v] {
                Some(w) => Some(w),
                None => None,
            }
        } else {
            match &self.w_neg[v] {
                Some(w) => Some(w),
                None => None,
            }
        }
    }
}

impl WeightTable {
    /// The weights of the variable at position `n`, negative literal first,
    /// each the declared one or weight 1.
    pub(crate) fn weights_of(&self, n: usize) -> (r: (ExactWeight, ExactWeight))
        ensures
            parts_of(r.0) == match self.declared(-(n + 1)) {
                Some(w) => parts_of(w),
                None => resolved::one_parts(),
            },
            parts_of(r.1) == match self.declared(n + 1) {
                Some(w) => parts_of(w),
                None => resolved::one_parts(),
            },
    {
        if n < self.w_pos.len() && n < self.w_neg.len() {
            let wn = match &self.w_neg[n] {
                Some(w) => w.duplicate(),
                None => ExactWeight::one(),
            };
            let wp = match &self.w_pos[n] {
                Some(w) => w.duplicate(),
                None => ExactWeight::one(),
            };
            (wn, wp)
        } else {
            proof {
                use_type_invariant(self);
            }
            (ExactWeight::one(), ExactWeight::one())
        }
    }
}

/// The declared literals of the first `n` variables, as
/// `(signed DIMACS literal, weight)`: by variable, the positive literal first.
pub open spec fn pairs_upto(t: WeightTable, n: nat) -> Seq<(i32, WeightParts)>
    decreases n,
{
    if n == 0 {
        Seq::empty()
    } else {
        let before = pairs_upto(t, (n - 1) as nat);
        let with_pos = match t.declared(n as int) {
            Some(w) => before.push((n as i32, parts_of(w))),
            None => before,
        };
        match t.declared(-(n as int)) {
            Some(w) => with_pos.push(((-(n as int)) as i32, parts_of(w))),
            None => with_pos,
        }
    }
}

/// The declared literals of the first `n` variables, as rows, are the table
/// there: each row is a declared literal with its declared weight, and each
/// declared literal of those variables has a row.
proof fn lemma_pairs_upto_declared(t: WeightTable, n: nat)
    requires
        n <= t.span(),
        forall|l: int| #[trigger] t.declared(l) is Some ==> i32::MIN <= l <= i32::MAX,
    ensures
        forall|k: int| 0 <= k < pairs_upto(t, n).len() ==> {
            let row = #[trigger] pairs_upto(t, n)[k];
            &&& t.declared(row.0 as int) is Some
            &&& parts_of(t.declared(row.0 as int)->Some_0) == row.1
            &&& 1 <= lit_var(row.0 as int) <= n
        },
        forall|l: int| #[trigger] t.declared(l) is Some && lit_var(l) <= n ==> exists|k: int|
            0 <= k < pairs_upto(t, n).len() && #[trigger] pairs_upto(t, n)[k].0 == l,
    decreases n,
{
    if n > 0 {
        let m = (n - 1) as nat;
        lemma_pairs_upto_declared(t, m);
        let before = pairs_upto(t, m);
        let with_pos = match t.declared(n as int) {
            Some(w) => before.push((n as i32, parts_of(w))),
            None => before,
        };
        let all = pairs_upto(t, n);
        if t.declared(n as int) is Some {
            assert((n as i32) as int == n as int);
        }
        if t.declared(-(n as int)) is Some {
            assert(((-(n as int)) as i32) as int == -(n as int));
        }
        assert forall|k: int| 0 <= k < with_pos.len() implies {
            let row = #[trigger] with_pos[k];
            &&& t.declared(row.0 as int) is Some
            &&& parts_of(t.declared(row.0 as int)->Some_0) == row.1
            &&& 1 <= lit_var(row.0 as int) <= n
        } by {
            if k < before.len() {
                assert(with_pos[k] == before[k]);
                assert(before[k] == pairs_upto(t, m)[k]);
            }
        }
        assert forall|k: int| 0 <= k < all.len() implies {
            let row = #[trigger] all[k];
            &&& t.declared(row.0 as int) is Some
            &&& parts_of(t.declared(row.0 as int)->Some_0) == row.1
            &&& 1 <= lit_var(row.0 as int) <= n
        } by {
            if k < with_pos.len() {
                assert(all[k] == with_pos[k]);
            }
        }
        assert forall|l: int| #[trigger] t.declared(l) is Some && lit_var(l) <= n implies exists|k: int|
            0 <= k < all.len() && #[trigger] all[k].0 == l by {
            if lit_var(l) < n {
                let k = choose|k: int| 0 <= k < pairs_upto(t, m).len() && #[trigger] pairs_upto(t, m)[k].0 == l;
                assert(with_pos[k] == before[k]);
                assert(all[k] == with_pos[k]);
            } else if l > 0 {
                assert(l == n);
                assert(with_pos[with_pos.len() - 1].0 == l);
                assert(all[with_pos.len() - 1] == with_pos[with_pos.len() - 1]);
            } else {
                assert(l == -(n as int));
                assert(all[all.len() - 1].0 == l);
            }
        }
    }
}

/// The rows of a table are the table: every `(l, w)` is a declared literal
/// `l` with its declared weight `w`, and every declared literal has a row.
/// Read as a map from literal to weight, the rows equal the table's
/// declarations.
pub proof fn lemma_literal_pairs_are_the_table(t: WeightTable)
    requires
        forall|l: int| #[trigger] t.declared(l) is Some ==> i32::MIN <= l <= i32::MAX,
    ensures
        forall|k: int| 0 <= k < pairs_upto(t, t.span()).len() ==> {
            let row = #[trigger] pairs_upto(t, t.span())[k];
            &&& t.declared(row.0 as int) is Some
            &&& parts_of(t.declared(row.0 as int)->Some_0) == row.1
        },
        forall|l: int| #[trigger] t.declared(l) is Some ==> exists|k: int|
            0 <= k < pairs_upto(t, t.span()).len() && #[trigger] pairs_upto(t, t.span())[k].0 == l,
{
    lemma_pairs_upto_declared(t, t.span());
    assert forall|l: int| #[trigger] t.declared(l) is Some implies exists|k: int|
        0 <= k < pairs_upto(t, t.span()).len() && #[trigger] pairs_upto(t, t.span())[k].0 == l by {
        assert(lit_var(l) <= t.span());
    }
}

/// The literal and parts of each row.
pub open spec fn rows_view(rows: Seq<(i32, ExactWeight)>) -> Seq<(i32, WeightParts)> {
    rows.map_values(|p: (i32, ExactWeight)| (p.0, parts_of(p.1)))
}

impl ExactWeight {
    /// A copy of this weight, digit for digit.
    pub fn duplicate(&self) -> (r: Self)
        ensures
            parts_of(r) == parts_of(*self),
    {
        ExactWeight {
            negative: self.negative,
            numerator: copy_span(self.numerator.as_slice(), 0, self.numerator.len()),
            denominator: copy_span(self.denominator.as_slice(), 0, self.denominator.len()),
        }
    }
}

impl WeightTable {
    /// Flatten back to `(signed DIMACS literal, weight)` pairs — exactly the
    /// literals that carried an explicit `c p weight` line, by variable, the
    /// positive literal first.
    pub fn to_literal_pairs(&self) -> (r: Vec<(i32, ExactWeight)>)
        ensures
            rows_view(r@) == pairs_upto(*self, self.span()),
            forall|k: int| 0 <= k < r@.len() ==> #[trigger] self.declared(r@[k].0 as int) is Some
                && parts_of(self.declared(r@[k].0 as int)->Some_0) == parts_of(r@[k].1),
            forall|l: int| #[trigger] self.declared(l) is Some ==> exists|k: int| 0 <= k < r@.len() && #[trigger] r@[k].0 == l,
    {
        proof {
            use_type_invariant(self);
            assert forall|l: int| #[trigger] self.declared(l) is Some implies i32::MIN <= l <= i32::MAX by {
                if l > 0 {
                    assert(self.w_pos@[l - 1] is Some);
                }
            }
            lemma_literal_pairs_are_the_table(*self);
        }
        let mut out: Vec<(i32, ExactWeight)> = Vec::new();
        let mut v: usize = 0;
        while v < self.w_pos.len()
            invariant
                v <= self.w_pos@.len() <= 2147483648,
                self.w_pos@.len() == self.w_neg@.len(),
                forall|k: int| 0 <= k < self.w_pos@.len() && (#[trigger] self.w_pos@[k]) is Some ==> k + 1 <= i32::MAX,
                rows_view(out@) == pairs_upto(*self, v as nat),
            decreases self.w_pos@.len() - v,
        {
            let ghost before = out@;
            proof {
                assert(self.declared((v + 1) as int) == self.w_pos@[v as int]);
                assert(self.declared(-((v + 1) as int)) == self.w_neg@[v as int]);
            }
            match &self.w_pos[v] {
                Some(w) => {
                    out.push(((v + 1) as i32, w.duplicate()));
                },
                None => {},
            }
            let ghost mid = out@;
            proof {
                assert(rows_view(mid) == (match self.declared((v + 1) as int) {
                    Some(w) => rows_view(before).push(((v + 1) as i32, parts_of(w))),
                    None => rows_view(before),
                }));
            }
            proof {
                assert(v < self.w_neg@.len());
            }
            match &self.w_neg[v] {
                Some(w) => {
                    let lit: i32 = if v + 1 == 2147483648 {
                        i32::MIN
                    } else {
                        -((v + 1) as i32)
                    };
                    out.push((lit, w.duplicate()));
                },
                None => {},
            }
            proof {
                assert(rows_view(out@) == (match self.declared(-((v + 1) as int)) {
                    Some(w) => rows_view(mid).push(((-((v + 1) as int)) as i32, parts_of(w))),
                    None => rows_view(mid),
                }));
            }
            v = v + 1;
        }
        proof {
            let rows = pairs_upto(*self, self.span());
            assert(rows_view(out@) == rows);
            assert forall|k: int| 0 <= k < out@.len() implies #[trigger] self.declared(out@[k].0 as int) is Some
                && parts_of(self.declared(out@[k].0 as int)->Some_0) == parts_of(out@[k].1) by {
                assert(rows[k] == rows_view(out@)[k]);
            }
            assert forall|l: int| #[trigger] self.declared(l) is Some implies exists|k: int| 0 <= k < out@.len() && #[trigger] out@[k].0 == l by {
                let k = choose|k: int| 0 <= k < rows.len() && #[trigger] rows[k].0 == l;
                assert(rows[k] == rows_view(out@)[k]);
            }
        }
        out
    }
}

/// One literal's weight, as written by a `c p weight <lit> <w> 0` line.
#[derive(Clone, Debug, PartialEq, Eq)]
pub struct LiteralWeight {
    /// Signed 1-based DIMACS literal.
    pub literal: i32,
    /// The exact weight as `"numerator/denominator"`, in lowest terms with a
    /// positive denominator.
    pub weight: String,
}

} // verus!
