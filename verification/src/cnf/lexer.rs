//! The byte-level pieces of DIMACS text: whitespace, lines, tokens, and the
//! integers a token may spell.
//!
//! A line is read as UTF-8 text. Its whitespace is Unicode's: the ASCII
//! whitespace a DIMACS file is written with (space, tab, line feed, vertical
//! tab, form feed and carriage return) and the wider whitespace characters,
//! which are folded into ASCII spaces, one per byte, before tokens are cut, so
//! that every position keeps its byte. An integer
//! token is spelt as Rust's integer parsers accept it: an optional sign (`-`
//! only where the type is signed) and at least one decimal digit, with no
//! separators, and a value the type can hold.

use vstd::prelude::*;

verus! {

/// Whether `b` is ASCII whitespace.
pub open spec fn is_space(b: u8) -> bool {
    b == 32 || b == 9 || b == 10 || b == 11 || b == 12 || b == 13
}

/// Whether `b` is a decimal digit.
pub open spec fn is_digit(b: u8) -> bool {
    48 <= b <= 57
}

/// The first position at or after `i` that holds no whitespace, or the end.
pub open spec fn skip_space(s: Seq<u8>, i: int) -> int
    decreases s.len() - i,
{
    if i < 0 || i >= s.len() {
        if i < 0 { 0 } else { i }
    } else if is_space(s[i]) {
        skip_space(s, i + 1)
    } else {
        i
    }
}

/// The first position at or after `i` that holds whitespace, or the end.
pub open spec fn token_end(s: Seq<u8>, i: int) -> int
    decreases s.len() - i,
{
    if i < 0 || i >= s.len() {
        if i < 0 { 0 } else { i }
    } else if is_space(s[i]) {
        i
    } else {
        token_end(s, i + 1)
    }
}

/// The whitespace-separated tokens of `s` from position `i` on.
pub open spec fn tokens_from(s: Seq<u8>, i: int) -> Seq<Seq<u8>>
    decreases s.len() - i,
{
    if i < 0 || i >= s.len() {
        Seq::empty()
    } else {
        let a = skip_space(s, i);
        if a >= s.len() {
            Seq::empty()
        } else {
            let b = token_end(s, a);
            if b <= i || b > s.len() || b < a {
                Seq::empty()
            } else {
                seq![s.subrange(a, b)] + tokens_from(s, b)
            }
        }
    }
}

/// The whitespace-separated tokens of `s`.
pub open spec fn tokens(s: Seq<u8>) -> Seq<Seq<u8>> {
    tokens_from(s, 0)
}

/// Whether `b` can continue a multi-byte UTF-8 sequence.
pub open spec fn is_cont(b: u8) -> bool {
    0x80 <= b <= 0xBF
}

/// The length of the well-formed UTF-8 character that starts at `i`, or 0
/// where none does: a stray continuation byte, an overlong form, a surrogate,
/// a value past U+10FFFF or a sequence cut short.
pub open spec fn utf8_len_at(s: Seq<u8>, i: int) -> int {
    if i < 0 || i >= s.len() {
        0
    } else if s[i] < 0x80 {
        1
    } else if 0xC2 <= s[i] <= 0xDF {
        if i + 1 < s.len() && is_cont(s[i + 1]) {
            2
        } else {
            0
        }
    } else if 0xE0 <= s[i] <= 0xEF {
        let lo: u8 = if s[i] == 0xE0 { 0xA0 } else { 0x80 };
        let hi: u8 = if s[i] == 0xED { 0x9F } else { 0xBF };
        if i + 2 < s.len() && lo <= s[i + 1] <= hi && is_cont(s[i + 2]) {
            3
        } else {
            0
        }
    } else if 0xF0 <= s[i] <= 0xF4 {
        let lo: u8 = if s[i] == 0xF0 { 0x90 } else { 0x80 };
        let hi: u8 = if s[i] == 0xF4 { 0x8F } else { 0xBF };
        if i + 3 < s.len() && lo <= s[i + 1] <= hi && is_cont(s[i + 2]) && is_cont(s[i + 3]) {
            4
        } else {
            0
        }
    } else {
        0
    }
}

/// `s` from position `i` on is a run of well-formed UTF-8 characters.
pub open spec fn utf8_from(s: Seq<u8>, i: int) -> bool
    decreases s.len() - i,
{
    if i < 0 || i >= s.len() {
        true
    } else if utf8_len_at(s, i) == 0 {
        false
    } else {
        utf8_from(s, i + utf8_len_at(s, i))
    }
}

/// `s` is well-formed UTF-8.
pub open spec fn valid_utf8(s: Seq<u8>) -> bool {
    utf8_from(s, 0)
}

/// The number of bytes of the whitespace character beyond ASCII that starts
/// at `i`, or 0: U+0085 and U+00A0 take two, U+1680, U+2000 to U+200A, U+2028,
/// U+2029, U+202F, U+205F and U+3000 take three.
pub open spec fn wide_space_at(s: Seq<u8>, i: int) -> int {
    if 0 <= i && i + 1 < s.len() && s[i] == 0xC2 && (s[i + 1] == 0x85 || s[i + 1] == 0xA0) {
        2
    } else if 0 <= i && i + 2 < s.len() && s[i] == 0xE1 && s[i + 1] == 0x9A && s[i + 2] == 0x80 {
        3
    } else if 0 <= i && i + 2 < s.len() && s[i] == 0xE2 && s[i + 1] == 0x80 && ((0x80 <= s[i + 2]
        <= 0x8A) || s[i + 2] == 0xA8 || s[i + 2] == 0xA9 || s[i + 2] == 0xAF) {
        3
    } else if 0 <= i && i + 2 < s.len() && s[i] == 0xE2 && s[i + 1] == 0x81 && s[i + 2] == 0x9F {
        3
    } else if 0 <= i && i + 2 < s.len() && s[i] == 0xE3 && s[i + 1] == 0x80 && s[i + 2] == 0x80 {
        3
    } else {
        0
    }
}

/// `n` ASCII spaces.
pub open spec fn spaces(n: int) -> Seq<u8> {
    Seq::new(n as nat, |k: int| 32u8)
}

/// `s` from position `i` on, each whitespace character beyond ASCII replaced
/// by as many ASCII spaces as it has bytes.
pub open spec fn fold_from(s: Seq<u8>, i: int) -> Seq<u8>
    decreases s.len() - i,
{
    if i < 0 || i >= s.len() {
        Seq::empty()
    } else if wide_space_at(s, i) > 0 {
        spaces(wide_space_at(s, i)) + fold_from(s, i + wide_space_at(s, i))
    } else {
        seq![s[i]] + fold_from(s, i + 1)
    }
}

/// `s` with its whitespace folded to ASCII: the same length, the same bytes
/// outside whitespace. Tokens cut from it are the tokens of the text.
pub open spec fn folded(s: Seq<u8>) -> Seq<u8> {
    fold_from(s, 0)
}

/// Folding keeps the length.
pub proof fn lemma_fold_len(s: Seq<u8>, i: int)
    requires
        0 <= i <= s.len(),
    ensures
        fold_from(s, i).len() == s.len() - i,
    decreases s.len() - i,
{
    if i < s.len() {
        if wide_space_at(s, i) > 0 {
            lemma_fold_len(s, i + wide_space_at(s, i));
        } else {
            lemma_fold_len(s, i + 1);
        }
    }
}

/// ASCII text is well-formed UTF-8 and has nothing to fold.
pub proof fn lemma_ascii_text(s: Seq<u8>, i: int)
    requires
        0 <= i <= s.len(),
        forall|k: int| 0 <= k < s.len() ==> #[trigger] s[k] < 128,
    ensures
        utf8_from(s, i),
        fold_from(s, i) == s.subrange(i, s.len() as int),
    decreases s.len() - i,
{
    if i < s.len() {
        assert(s[i] < 128);
        lemma_ascii_text(s, i + 1);
        assert(seq![s[i]] + s.subrange(i + 1, s.len() as int) =~= s.subrange(i, s.len() as int));
    } else {
        assert(s.subrange(i, s.len() as int) =~= Seq::<u8>::empty());
    }
}

/// The length of the well-formed UTF-8 character at `i`, or 0.
fn utf8_width(s: &[u8], i: usize) -> (r: usize)
    requires
        i < s@.len(),
    ensures
        r as int == utf8_len_at(s@, i as int),
{
    let b = s[i];
    let n = s.len();
    if b < 0x80 {
        1
    } else if 0xC2 <= b && b <= 0xDF {
        if n - i > 1 && 0x80 <= s[i + 1] && s[i + 1] <= 0xBF {
            2
        } else {
            0
        }
    } else if 0xE0 <= b && b <= 0xEF {
        let lo: u8 = if b == 0xE0 { 0xA0 } else { 0x80 };
        let hi: u8 = if b == 0xED { 0x9F } else { 0xBF };
        if n - i > 2 && lo <= s[i + 1] && s[i + 1] <= hi && 0x80 <= s[i + 2] && s[i + 2] <= 0xBF {
            3
        } else {
            0
        }
    } else if 0xF0 <= b && b <= 0xF4 {
        let lo: u8 = if b == 0xF0 { 0x90 } else { 0x80 };
        let hi: u8 = if b == 0xF4 { 0x8F } else { 0xBF };
        if n - i > 3 && lo <= s[i + 1] && s[i + 1] <= hi && 0x80 <= s[i + 2] && s[i + 2] <= 0xBF
            && 0x80 <= s[i + 3] && s[i + 3] <= 0xBF {
            4
        } else {
            0
        }
    } else {
        0
    }
}

/// Whether `s` is well-formed UTF-8.
pub fn is_utf8(s: &[u8]) -> (r: bool)
    ensures
        r == valid_utf8(s@),
{
    let mut i: usize = 0;
    while i < s.len()
        invariant
            i <= s@.len(),
            utf8_from(s@, i as int) == valid_utf8(s@),
        decreases s@.len() - i,
    {
        let w = utf8_width(s, i);
        if w == 0 {
            return false;
        }
        i = i + w;
    }
    true
}

/// The number of bytes of the whitespace character beyond ASCII at `i`, or 0.
fn wide_space_width(s: &[u8], i: usize) -> (r: usize)
    requires
        i < s@.len(),
    ensures
        r as int == wide_space_at(s@, i as int),
{
    let n = s.len();
    if n - i > 1 && s[i] == 0xC2 && (s[i + 1] == 0x85 || s[i + 1] == 0xA0) {
        2
    } else if n - i > 2 && s[i] == 0xE1 && s[i + 1] == 0x9A && s[i + 2] == 0x80 {
        3
    } else if n - i > 2 && s[i] == 0xE2 && s[i + 1] == 0x80 && ((0x80 <= s[i + 2] && s[i + 2]
        <= 0x8A) || s[i + 2] == 0xA8 || s[i + 2] == 0xA9 || s[i + 2] == 0xAF) {
        3
    } else if n - i > 2 && s[i] == 0xE2 && s[i + 1] == 0x81 && s[i + 2] == 0x9F {
        3
    } else if n - i > 2 && s[i] == 0xE3 && s[i + 1] == 0x80 && s[i + 2] == 0x80 {
        3
    } else {
        0
    }
}

/// `s` with its whitespace folded to ASCII spaces.
pub fn fold_spaces(s: &[u8]) -> (r: Vec<u8>)
    ensures
        r@ == folded(s@),
        r@.len() == s@.len(),
{
    proof {
        lemma_fold_len(s@, 0);
    }
    let mut out: Vec<u8> = Vec::new();
    let mut i: usize = 0;
    while i < s.len()
        invariant
            i <= s@.len(),
            out@ + fold_from(s@, i as int) == folded(s@),
        decreases s@.len() - i,
    {
        let w = wide_space_width(s, i);
        if w > 0 {
            let ghost before = out@;
            let mut k: usize = 0;
            while k < w
                invariant
                    k <= w,
                    out@ == before + spaces(k as int),
                decreases w - k,
            {
                out.push(32);
                proof {
                    assert(before + spaces(k + 1) =~= (before + spaces(k as int)).push(32u8));
                }
                k = k + 1;
            }
            proof {
                assert(before + (spaces(w as int) + fold_from(s@, i + w)) =~= before + spaces(w as int)
                    + fold_from(s@, i + w));
            }
            i = i + w;
        } else {
            let ghost before = out@;
            out.push(s[i]);
            proof {
                assert(before + (seq![s@[i as int]] + fold_from(s@, i + 1)) =~= before.push(s@[i as int])
                    + fold_from(s@, i + 1));
            }
            i = i + 1;
        }
    }
    proof {
        assert(out@ + Seq::<u8>::empty() =~= out@);
    }
    out
}

pub(crate) proof fn lemma_skip_space(s: Seq<u8>, i: int)
    requires
        0 <= i <= s.len(),
    ensures
        i <= skip_space(s, i) <= s.len(),
        skip_space(s, i) < s.len() ==> !is_space(s[skip_space(s, i)]),
        forall|k: int| i <= k < skip_space(s, i) ==> is_space(#[trigger] s[k]),
    decreases s.len() - i,
{
    if i < s.len() && is_space(s[i]) {
        lemma_skip_space(s, i + 1);
    }
}

pub(crate) proof fn lemma_token_end(s: Seq<u8>, i: int)
    requires
        0 <= i <= s.len(),
    ensures
        i <= token_end(s, i) <= s.len(),
        token_end(s, i) < s.len() ==> is_space(s[token_end(s, i)]),
        forall|k: int| i <= k < token_end(s, i) ==> !is_space(#[trigger] s[k]),
    decreases s.len() - i,
{
    if i < s.len() && !is_space(s[i]) {
        lemma_token_end(s, i + 1);
    }
}

/// The first position at or after `i` that holds no whitespace, or the end.
pub fn skip_spaces(s: &[u8], i: usize) -> (r: usize)
    requires
        i <= s@.len(),
    ensures
        r == skip_space(s@, i as int),
        i <= r <= s@.len(),
        r < s@.len() ==> !is_space(s@[r as int]),
{
    proof {
        lemma_skip_space(s@, i as int);
    }
    let mut j = i;
    while j < s.len() && (s[j] == 32 || s[j] == 9 || s[j] == 10 || s[j] == 11 || s[j] == 12 || s[j]
        == 13)
        invariant
            i <= j <= s@.len(),
            skip_space(s@, j as int) == skip_space(s@, i as int),
        decreases s@.len() - j,
    {
        j = j + 1;
    }
    j
}

/// The first position at or after `i` that holds whitespace, or the end.
pub fn find_token_end(s: &[u8], i: usize) -> (r: usize)
    requires
        i <= s@.len(),
    ensures
        r == token_end(s@, i as int),
        i <= r <= s@.len(),
{
    proof {
        lemma_token_end(s@, i as int);
    }
    let mut j = i;
    while j < s.len() && !(s[j] == 32 || s[j] == 9 || s[j] == 10 || s[j] == 11 || s[j] == 12 || s[j]
        == 13)
        invariant
            i <= j <= s@.len(),
            token_end(s@, j as int) == token_end(s@, i as int),
        decreases s@.len() - j,
    {
        j = j + 1;
    }
    j
}

/// The positions of the whitespace-separated tokens of `s`: token `k` is
/// `s[r[k].0..r[k].1]`.
pub fn token_spans(s: &[u8]) -> (r: Vec<(usize, usize)>)
    ensures
        r@.len() == tokens(s@).len(),
        forall|k: int|
            0 <= k < r@.len() ==> #[trigger] r@[k].0 <= r@[k].1 <= s@.len() && s@.subrange(
                r@[k].0 as int,
                r@[k].1 as int,
            ) == tokens(s@)[k],
{
    let mut out: Vec<(usize, usize)> = Vec::new();
    let mut i: usize = 0;
    let ghost mut seen: Seq<Seq<u8>> = Seq::empty();
    while i < s.len()
        invariant
            i <= s@.len(),
            seen + tokens_from(s@, i as int) == tokens(s@),
            out@.len() == seen.len(),
            forall|k: int|
                0 <= k < out@.len() ==> #[trigger] out@[k].0 <= out@[k].1 <= s@.len() && s@.subrange(
                    out@[k].0 as int,
                    out@[k].1 as int,
                ) == seen[k],
        decreases s@.len() - i,
    {
        let a = skip_spaces(s, i);
        if a >= s.len() {
            proof {
                assert(tokens_from(s@, i as int) == Seq::<Seq<u8>>::empty());
                assert(seen + Seq::<Seq<u8>>::empty() == seen);
            }
            i = a;
        } else {
            let b = find_token_end(s, a);
            proof {
                lemma_token_end(s@, a as int);
                assert(b > a);
                assert(tokens_from(s@, i as int) == seq![s@.subrange(a as int, b as int)] + tokens_from(
                    s@,
                    b as int,
                ));
                assert(seen + tokens_from(s@, i as int) == seen.push(s@.subrange(a as int, b as int))
                    + tokens_from(s@, b as int));
                seen = seen.push(s@.subrange(a as int, b as int));
            }
            out.push((a, b));
            i = b;
        }
    }
    proof {
        assert(tokens_from(s@, i as int) == Seq::<Seq<u8>>::empty());
        assert(seen + Seq::<Seq<u8>>::empty() == seen);
    }
    out
}

/// The value of a run of decimal digits.
pub open spec fn digits_value(d: Seq<u8>) -> nat
    decreases d.len(),
{
    if d.len() == 0 {
        0
    } else {
        10 * digits_value(d.drop_last()) + (d.last() - 48) as nat
    }
}

/// `d` is a nonempty run of decimal digits.
pub open spec fn all_digits(d: Seq<u8>) -> bool {
    d.len() >= 1 && forall|i: int| 0 <= i < d.len() ==> is_digit(#[trigger] d[i])
}

/// The integer `t` spells: an optional sign — `-` only when `signed` — then
/// decimal digits. `None` when `t` spells no integer.
pub open spec fn int_text(t: Seq<u8>, signed: bool) -> Option<int> {
    if t.len() >= 1 && t[0] == 45 && signed {
        if all_digits(t.drop_first()) {
            Some(-(digits_value(t.drop_first()) as int))
        } else {
            None
        }
    } else if t.len() >= 1 && t[0] == 43 {
        if all_digits(t.drop_first()) {
            Some(digits_value(t.drop_first()) as int)
        } else {
            None
        }
    } else if all_digits(t) {
        Some(digits_value(t) as int)
    } else {
        None
    }
}

/// The integer `t` spells when it lies in `lo..=hi`, as Rust's parser for a
/// type with that range reads it.
pub open spec fn int_in(t: Seq<u8>, signed: bool, lo: int, hi: int) -> Option<int> {
    match int_text(t, signed) {
        Some(v) => if lo <= v <= hi {
            Some(v)
        } else {
            None
        },
        None => None,
    }
}

proof fn lemma_digits_monotone(d: Seq<u8>, k: int)
    requires
        all_digits(d),
        1 <= k <= d.len(),
    ensures
        digits_value(d.take(k)) <= digits_value(d),
    decreases d.len() - k,
{
    if k < d.len() {
        lemma_digits_monotone(d, k + 1);
        assert(d.take(k + 1).drop_last() == d.take(k));
    } else {
        assert(d.take(k) == d);
    }
}

/// The magnitude `t[from..]` spells as decimal digits, when it is at most
/// `cap`; `None` when a byte is no digit, there are none, or it exceeds `cap`.
fn read_magnitude(t: &[u8], from: usize, cap: u64) -> (r: Option<u64>)
    requires
        from <= t@.len(),
    ensures
        match r {
            Some(m) => all_digits(t@.subrange(from as int, t@.len() as int)) && m == digits_value(
                t@.subrange(from as int, t@.len() as int),
            ) && m <= cap,
            None => !all_digits(t@.subrange(from as int, t@.len() as int)) || digits_value(
                t@.subrange(from as int, t@.len() as int),
            ) > cap,
        },
{
    let ghost d = t@.subrange(from as int, t@.len() as int);
    if from >= t.len() {
        return None;
    }
    let mut m: u64 = 0;
    let mut over = false;
    let mut i = from;
    while i < t.len()
        invariant
            from < t@.len(),
            from <= i <= t@.len(),
            d == t@.subrange(from as int, t@.len() as int),
            forall|k: int| from <= k < i ==> is_digit(#[trigger] t@[k]),
            !over ==> m == digits_value(d.take(i - from)) && m <= cap,
            over ==> digits_value(d.take(i - from)) > cap,
        decreases t@.len() - i,
    {
        let b = t[i];
        if b < 48 || b > 57 {
            proof {
                assert(d[i - from] == b);
            }
            return None;
        }
        proof {
            assert(d.take(i - from + 1).drop_last() == d.take(i - from));
            assert(d.take(i - from + 1).last() == b);
        }
        let dv: u64 = (b - 48) as u64;
        if !over {
            let next: u128 = (m as u128) * 10 + (dv as u128);
            if next > cap as u128 {
                over = true;
            } else {
                m = next as u64;
            }
        } else {
            proof {
                assert(digits_value(d.take(i - from + 1)) >= digits_value(d.take(i - from))) by (nonlinear_arith)
                    requires
                        digits_value(d.take(i - from + 1)) == 10 * digits_value(d.take(i - from)) + (
                        b - 48) as nat,
                ;
            }
        }
        i = i + 1;
    }
    proof {
        assert(d.take(d.len() as int) == d);
        assert(all_digits(d));
    }
    if over {
        None
    } else {
        Some(m)
    }
}

/// The integer token `t` spells, when it lies in `-neg_cap..=pos_cap`, as
/// `(negative, magnitude)`; a `-` sign is read only when `signed`.
pub fn read_int(t: &[u8], signed: bool, pos_cap: u64, neg_cap: u64) -> (r: Option<(bool, u64)>)
    ensures
        match r {
            Some((neg, m)) => int_in(t@, signed, -(neg_cap as int), pos_cap as int) == Some(
                if neg { -(m as int) } else { m as int },
            ),
            None => int_in(t@, signed, -(neg_cap as int), pos_cap as int) is None,
        },
{
    if t.len() >= 1 && t[0] == 45 && signed {
        proof {
            assert(t@.subrange(1, t@.len() as int) == t@.drop_first());
        }
        match read_magnitude(t, 1, neg_cap) {
            Some(m) => Some((true, m)),
            None => None,
        }
    } else if t.len() >= 1 && t[0] == 43 {
        proof {
            assert(t@.subrange(1, t@.len() as int) == t@.drop_first());
        }
        match read_magnitude(t, 1, pos_cap) {
            Some(m) => Some((false, m)),
            None => None,
        }
    } else {
        proof {
            assert(t@.subrange(0, t@.len() as int) == t@);
        }
        match read_magnitude(t, 0, pos_cap) {
            Some(m) => Some((false, m)),
            None => None,
        }
    }
}

/// The `i32` token `t` spells, if any.
pub fn read_i32(t: &[u8]) -> (r: Option<i32>)
    ensures
        match r {
            Some(v) => int_in(t@, true, i32::MIN as int, i32::MAX as int) == Some(v as int),
            None => int_in(t@, true, i32::MIN as int, i32::MAX as int) is None,
        },
{
    match read_int(t, true, 2147483647, 2147483648) {
        Some((neg, m)) => {
            if neg {
                if m == 2147483648 {
                    Some(i32::MIN)
                } else {
                    Some(-(m as i32))
                }
            } else {
                Some(m as i32)
            }
        },
        None => None,
    }
}

/// The `i64` token `t` spells, if any.
pub fn read_i64(t: &[u8]) -> (r: Option<i64>)
    ensures
        match r {
            Some(v) => int_in(t@, true, i64::MIN as int, i64::MAX as int) == Some(v as int),
            None => int_in(t@, true, i64::MIN as int, i64::MAX as int) is None,
        },
{
    match read_int(t, true, 9223372036854775807, 9223372036854775808) {
        Some((neg, m)) => {
            if neg {
                if m == 9223372036854775808 {
                    Some(i64::MIN)
                } else {
                    Some(-(m as i64))
                }
            } else {
                Some(m as i64)
            }
        },
        None => None,
    }
}

/// The `u32` token `t` spells, if any.
pub fn read_u32(t: &[u8]) -> (r: Option<u32>)
    ensures
        match r {
            Some(v) => int_in(t@, false, 0, u32::MAX as int) == Some(v as int),
            None => int_in(t@, false, 0, u32::MAX as int) is None,
        },
{
    match read_int(t, false, 4294967295, 0) {
        Some((_, m)) => Some(m as u32),
        None => None,
    }
}

/// The `usize` token `t` spells, if any.
pub fn read_usize(t: &[u8]) -> (r: Option<usize>)
    ensures
        match r {
            Some(v) => int_in(t@, false, 0, usize::MAX as int) == Some(v as int),
            None => int_in(t@, false, 0, usize::MAX as int) is None,
        },
{
    match read_int(t, false, usize::MAX as u64, 0) {
        Some((_, m)) => Some(m as usize),
        None => None,
    }
}

} // verus!
