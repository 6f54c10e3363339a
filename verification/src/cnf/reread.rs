//! Reading back what the writer writes: the DIMACS text
//! [`CnfFormula::write_dimacs`](super::CnfFormula::write_dimacs) produces for a
//! formula reads, through [`CnfFormula::from_dimacs`](super::CnfFormula::from_dimacs),
//! as that same formula with no metadata.

use super::dimacs::{by_var, clause_ints, close_spec, comment_step, dimacs_spec, finish_spec, formula_is, initial_state, lemma_normal_form_unique, lit_ints, line_step, magnitude, normal_form, normalized, read_from, show_fold, tautology, track_token, clause_fold, IdSite, ReadState, WidestId, note_spec};
use super::lexer::{all_digits, digits_value, folded, int_in, int_text, is_digit, is_space, lemma_ascii_text, lemma_skip_space, lemma_token_end, skip_space, token_end, tokens, tokens_from, valid_utf8};
use super::weights::{find_from, lemma_find_at};
use super::writer::{clause_text, clauses_text, dimacs_text, header_text, joined, problem_text, show_items, show_line, track_line};
use super::show_set::canonical;
use super::{mode_token, Mode};
use super::CnfFormula;
use crate::text::{ascii_of, decimal, signed_decimal};
use vstd::prelude::*;

verus! {

/// Words separated by single spaces.
pub open spec fn spaced(ws: Seq<Seq<u8>>) -> Seq<u8>
    decreases ws.len(),
{
    if ws.len() == 0 {
        Seq::empty()
    } else if ws.len() == 1 {
        ws[0]
    } else {
        spaced(ws.drop_last()) + seq![32u8] + ws.last()
    }
}

/// A nonempty run of bytes none of which is whitespace.
pub open spec fn word(w: Seq<u8>) -> bool {
    w.len() >= 1 && forall|i: int| 0 <= i < w.len() ==> !is_space(#[trigger] w[i])
}

/// Every entry is a word.
pub open spec fn all_words(ws: Seq<Seq<u8>>) -> bool {
    forall|k: int| 0 <= k < ws.len() ==> word(#[trigger] ws[k])
}

/// Skipping whitespace from `j` lands on `p` when everything between is
/// whitespace and `p` is not.
proof fn lemma_skip_to(s: Seq<u8>, j: int, p: int)
    requires
        0 <= j <= p < s.len(),
        forall|k: int| j <= k < p ==> is_space(#[trigger] s[k]),
        !is_space(s[p]),
    ensures
        skip_space(s, j) == p,
{
    lemma_skip_space(s, j);
    let a = skip_space(s, j);
    if a < p {
        assert(is_space(s[a]));
    }
    if a > p {
        assert(is_space(s[p]));
    }
}

/// A token starting at `p` ends at `e` when nothing between is whitespace and
/// `e` is whitespace or the end.
proof fn lemma_token_to(s: Seq<u8>, p: int, e: int)
    requires
        0 <= p < e <= s.len(),
        forall|k: int| p <= k < e ==> !is_space(#[trigger] s[k]),
        e == s.len() || is_space(s[e]),
    ensures
        token_end(s, p) == e,
{
    lemma_token_end(s, p);
    let b = token_end(s, p);
    if b < e {
        assert(!is_space(s[b]));
    }
    if b > e {
        assert(!is_space(s[e]));
    }
}

/// After whitespace, one word: the tokens from `j` are that word, then the
/// tokens after it.
proof fn lemma_one_word(s: Seq<u8>, j: int, p: int, w: Seq<u8>)
    requires
        0 <= j <= p,
        p + w.len() <= s.len(),
        word(w),
        s.subrange(p, p + w.len()) == w,
        forall|k: int| j <= k < p ==> is_space(#[trigger] s[k]),
        p + w.len() == s.len() || is_space(s[p + w.len()]),
    ensures
        tokens_from(s, j) == seq![w] + tokens_from(s, p + w.len()),
{
    let e = p + w.len();
    assert(s[p] == w[0]);
    lemma_skip_to(s, j, p);
    assert forall|k: int| p <= k < e implies !is_space(#[trigger] s[k]) by {
        assert(s[k] == w[k - p]);
    }
    lemma_token_to(s, p, e);
}

/// The tokens of words separated by single spaces are those words.
proof fn lemma_spaced_tokens(s: Seq<u8>, i: int, ws: Seq<Seq<u8>>)
    requires
        ws.len() >= 1,
        all_words(ws),
        0 <= i,
        i + spaced(ws).len() <= s.len(),
        s.subrange(i, i + spaced(ws).len()) == spaced(ws),
        i + spaced(ws).len() == s.len() || is_space(s[i + spaced(ws).len()]),
    ensures
        tokens_from(s, i) == ws + tokens_from(s, i + spaced(ws).len()),
    decreases ws.len(),
{
    assert(word(ws[0]));
    if ws.len() == 1 {
        lemma_one_word(s, i, i, ws[0]);
        assert(seq![ws[0]] =~= ws);
    } else {
        let front = ws.drop_last();
        let w = ws.last();
        assert(word(w));
        let e1 = i + spaced(front).len();
        assert(all_words(front)) by {
            assert forall|k: int| 0 <= k < front.len() implies word(#[trigger] front[k]) by {
                assert(front[k] == ws[k]);
            }
        }
        assert(spaced(ws) == spaced(front) + seq![32u8] + w);
        assert(s.subrange(i, e1) =~= spaced(front)) by {
            assert forall|k: int| 0 <= k < e1 - i implies s.subrange(i, e1)[k] == spaced(front)[k] by {
                assert(s.subrange(i, i + spaced(ws).len())[k] == spaced(ws)[k]);
            }
        }
        assert(s[e1] == 32) by {
            assert(s.subrange(i, i + spaced(ws).len())[e1 - i] == spaced(ws)[e1 - i]);
        }
        lemma_spaced_tokens(s, i, front);
        assert(s.subrange(e1 + 1, e1 + 1 + w.len()) =~= w) by {
            assert forall|k: int| 0 <= k < w.len() implies s.subrange(e1 + 1, e1 + 1 + w.len())[k] == w[k] by {
                assert(s.subrange(i, i + spaced(ws).len())[e1 + 1 + k - i] == spaced(ws)[e1 + 1 + k - i]);
            }
        }
        assert forall|k: int| e1 <= k < e1 + 1 implies is_space(#[trigger] s[k]) by {}
        lemma_one_word(s, e1, e1 + 1, w);
        assert(front + (seq![w] + tokens_from(s, i + spaced(ws).len())) =~= ws + tokens_from(s, i + spaced(ws).len()));
    }
}

/// The decimal digits of `n` are a run of digits spelling `n`.
pub(crate) proof fn lemma_decimal(n: nat)
    ensures
        all_digits(decimal(n)),
        digits_value(decimal(n)) == n,
        is_digit(decimal(n)[0]),
    decreases n,
{
    if n < 10 {
        assert(decimal(n) == seq![(48 + n) as u8]);
        assert(decimal(n).drop_last() =~= Seq::<u8>::empty());
        assert(digits_value(Seq::<u8>::empty()) == 0);
        assert(decimal(n).last() == 48 + n);
    } else {
        lemma_decimal(n / 10);
        let d = decimal(n / 10);
        assert(decimal(n) == d.push((48 + n % 10) as u8));
        assert(decimal(n).drop_last() =~= d);
        assert(decimal(n)[0] == d[0]);
        assert forall|i: int| 0 <= i < decimal(n).len() implies is_digit(#[trigger] decimal(n)[i]) by {
            if i < d.len() {
                assert(decimal(n)[i] == d[i]);
            }
        }
        assert(digits_value(decimal(n)) == 10 * digits_value(d) + (n % 10));
    }
}

/// Decimal digits are a word, spelling `n` to the integer reader.
proof fn lemma_decimal_word(n: nat, signed: bool)
    ensures
        word(decimal(n)),
        int_text(decimal(n), signed) == Some(n as int),
        forall|k: int| 0 <= k < decimal(n).len() ==> is_digit(#[trigger] decimal(n)[k]),
{
    lemma_decimal(n);
}

/// A nonzero integer written in decimal is a word the signed reader reads
/// back, led by `-` or a digit, and holding no `.` or line feed.
proof fn lemma_signed_word(v: int)
    ensures
        word(signed_decimal(v)),
        int_text(signed_decimal(v), true) == Some(v),
        signed_decimal(v)[0] == 45 || is_digit(signed_decimal(v)[0]),
        forall|k: int| 0 <= k < signed_decimal(v).len() ==> (#[trigger] signed_decimal(v)[k] == 45 || is_digit(signed_decimal(v)[k])),
{
    if v < 0 {
        let d = decimal((-v) as nat);
        lemma_decimal_word((-v) as nat, true);
        assert(signed_decimal(v) == seq![45u8] + d);
        assert(signed_decimal(v).drop_first() =~= d);
        assert forall|k: int| 0 <= k < signed_decimal(v).len() implies (#[trigger] signed_decimal(v)[k] == 45 || is_digit(signed_decimal(v)[k])) by {
            if k > 0 {
                assert(signed_decimal(v)[k] == d[k - 1]);
            }
        }
    } else {
        lemma_decimal_word(v as nat, true);
    }
}

/// Words joined by spaces hold no whitespace but the spaces.
proof fn lemma_spaced_bytes(ws: Seq<Seq<u8>>)
    requires
        all_words(ws),
    ensures
        forall|k: int| 0 <= k < spaced(ws).len() ==> (#[trigger] spaced(ws)[k] == 32 || !is_space(spaced(ws)[k])),
        ws.len() >= 1 ==> spaced(ws).len() >= 1 && spaced(ws)[0] == ws[0][0],
    decreases ws.len(),
{
    if ws.len() == 1 {
        assert(word(ws[0]));
    } else if ws.len() > 1 {
        let front = ws.drop_last();
        assert(all_words(front)) by {
            assert forall|k: int| 0 <= k < front.len() implies word(#[trigger] front[k]) by {
                assert(front[k] == ws[k]);
            }
        }
        lemma_spaced_bytes(front);
        let w = ws.last();
        assert(word(w));
        let f = spaced(front);
        assert(spaced(ws) == f + seq![32u8] + w);
        assert forall|k: int| 0 <= k < spaced(ws).len() implies (#[trigger] spaced(ws)[k] == 32 || !is_space(spaced(ws)[k])) by {
            if k < f.len() {
                assert(spaced(ws)[k] == f[k]);
            } else if k > f.len() {
                assert(spaced(ws)[k] == w[k - f.len() - 1]);
            }
        }
        assert(spaced(ws)[0] == f[0]);
        assert(front[0] == ws[0]);
    }
}

/// Appending a word to a nonempty list appends a space and the word.
proof fn lemma_spaced_push(ws: Seq<Seq<u8>>, w: Seq<u8>)
    requires
        ws.len() >= 1,
    ensures
        spaced(ws.push(w)) == spaced(ws) + seq![32u8] + w,
{
    assert(ws.push(w).drop_last() =~= ws);
}

/// Every byte of every word is ASCII.
pub open spec fn ascii_words(ws: Seq<Seq<u8>>) -> bool {
    forall|k: int, i: int| 0 <= k < ws.len() && 0 <= i < ws[k].len() ==> #[trigger] ws[k][i] < 128
}

/// ASCII words joined by spaces are ASCII.
proof fn lemma_spaced_ascii_bytes(ws: Seq<Seq<u8>>)
    requires
        ascii_words(ws),
    ensures
        forall|k: int| 0 <= k < spaced(ws).len() ==> #[trigger] spaced(ws)[k] < 128,
    decreases ws.len(),
{
    if ws.len() == 1 {
        assert forall|k: int| 0 <= k < spaced(ws).len() implies #[trigger] spaced(ws)[k] < 128 by {
            assert(ws[0][k] < 128);
        }
    } else if ws.len() > 1 {
        let front = ws.drop_last();
        assert(ascii_words(front)) by {
            assert forall|k: int, i: int| 0 <= k < front.len() && 0 <= i < front[k].len() implies #[trigger] front[k][i] < 128 by {
                assert(front[k] == ws[k]);
                assert(ws[k][i] < 128);
            }
        }
        lemma_spaced_ascii_bytes(front);
        let w = ws.last();
        let f = spaced(front);
        assert(spaced(ws) == f + seq![32u8] + w);
        assert forall|k: int| 0 <= k < spaced(ws).len() implies #[trigger] spaced(ws)[k] < 128 by {
            if k < f.len() {
                assert(spaced(ws)[k] == f[k]);
            } else if k > f.len() {
                assert(spaced(ws)[k] == w[k - f.len() - 1]);
                assert(ws[ws.len() - 1][k - f.len() - 1] < 128);
            }
        }
    }
}

/// A line of ASCII words is well-formed UTF-8 with nothing to fold.
proof fn lemma_spaced_ascii(ws: Seq<Seq<u8>>)
    requires
        ascii_words(ws),
    ensures
        valid_utf8(spaced(ws)),
        folded(spaced(ws)) == spaced(ws),
{
    let s = spaced(ws);
    lemma_spaced_ascii_bytes(ws);
    lemma_ascii_text(s, 0);
    assert(s.subrange(0, s.len() as int) =~= s);
}

/// The decimal spellings of a clause's literals.
pub open spec fn lit_words(c: Seq<int>) -> Seq<Seq<u8>> {
    c.map_values(|v: int| signed_decimal(v))
}

/// A clause's literals joined by spaces are their spellings, spaced.
proof fn lemma_joined_spaced(c: Seq<int>)
    ensures
        joined(c) == spaced(lit_words(c)),
    decreases c.len(),
{
    if c.len() > 1 {
        lemma_joined_spaced(c.drop_last());
        assert(lit_words(c).drop_last() =~= lit_words(c.drop_last()));
    }
}

/// The spellings of nonzero literals are words.
proof fn lemma_lit_words(c: Seq<int>)
    ensures
        all_words(lit_words(c)),
{
    assert forall|k: int| 0 <= k < lit_words(c).len() implies word(#[trigger] lit_words(c)[k]) by {
        lemma_signed_word(c[k]);
    }
}

/// The widest id recorded lies inside `n` variables.
pub open spec fn widest_ok(w: Option<WidestId>, n: u32) -> bool {
    match w {
        Some(x) => magnitude(x.written as int) <= n,
        None => true,
    }
}

/// Every literal of `c` names a variable of a space of `n`, with an `i32`
/// spelling, and `c` lists them by ascending variable.
pub open spec fn clause_fits(c: Seq<int>, n: u32) -> bool {
    &&& by_var(c)
    &&& forall|i: int| 0 <= i < c.len() ==> 1 <= magnitude(#[trigger] c[i]) <= n && magnitude(c[i]) <= i32::MAX
}

/// A clause sorted by variable is its own normal form, and no tautology.
proof fn lemma_sorted_clause_kept(c: Seq<int>, n: u32)
    requires
        clause_fits(c, n),
    ensures
        !tautology(c),
        normalized(c) == c,
{
    if tautology(c) {
        let (i, j) = choose|i: int, j: int| 0 <= i < c.len() && 0 <= j < c.len() && #[trigger] c[i] == -#[trigger] c[j];
        assert(magnitude(c[i]) == magnitude(c[j]));
        if i < j {
            assert(magnitude(c[i]) < magnitude(c[j]));
        } else if j < i {
            assert(magnitude(c[j]) < magnitude(c[i]));
        } else {
            assert(c[i] == 0);
        }
    }
    assert(normal_form(c, c));
    let s = normalized(c);
    assert(normal_form(s, c));
    lemma_normal_form_unique(s, c);
}

/// The clause data of one clause line, from token `k` on, adds the clause.
proof fn lemma_clause_fold(st: ReadState, c: Seq<int>, k: int, n: int)
    requires
        0 <= k <= c.len(),
        st.current == c.take(k),
        clause_fits(c, st.num_vars),
        widest_ok(st.widest, st.num_vars),
    ensures
        clause_fold(st, lit_words(c).push(seq![48u8]), k, n) matches Ok((st2, stop)) && !stop && st2 == (ReadState {
            clauses: st.clauses.push(c),
            current: Seq::empty(),
            widest: st2.widest,
            ..st
        }) && widest_ok(st2.widest, st.num_vars),
    decreases c.len() - k,
{
    let toks = lit_words(c).push(seq![48u8]);
    if k == c.len() {
        assert(toks[k] == seq![48u8]);
        assert(seq![48u8].drop_last() =~= Seq::<u8>::empty());
        assert(digits_value(Seq::<u8>::empty()) == 0);
        assert(all_digits(seq![48u8]));
        assert(int_text(seq![48u8], true) == Some(0int));
        assert(c.take(k) =~= c);
        lemma_sorted_clause_kept(c, st.num_vars);
        let st1 = close_spec(st);
        assert(st1 == ReadState { clauses: st.clauses.push(c), current: Seq::<int>::empty(), ..st });
        assert(clause_fold(st1, toks, k + 1, n) == Ok::<(ReadState, bool), Seq<u8>>((st1, false)));
    } else {
        let v = c[k];
        assert(toks[k] == signed_decimal(v));
        lemma_signed_word(v);
        assert(int_in(toks[k], true, i32::MIN as int, i32::MAX as int) == Some(v));
        let w2 = note_spec(st.widest, IdSite::ClauseLiteral, v as i64, n as usize);
        assert(widest_ok(w2, st.num_vars));
        let st1 = ReadState { widest: w2, current: st.current.push(v), ..st };
        assert(st.current.push(v) =~= c.take(k + 1));
        lemma_clause_fold(st1, c, k + 1, n);
    }
}

/// The line of a clause without its line feed.
pub open spec fn clause_line(c: Seq<int>) -> Seq<u8> {
    joined(c) + seq![32u8, 48u8]
}

/// One clause line, without its line feed, adds the clause and holds no line
/// feed.
proof fn lemma_clause_line(st: ReadState, c: Seq<int>)
    requires
        st.current == Seq::<int>::empty(),
        clause_fits(c, st.num_vars),
        widest_ok(st.widest, st.num_vars),
    ensures
        line_step(st, clause_line(c)) matches Ok((st2, stop)) && !stop && st2 == (ReadState {
            clauses: st.clauses.push(c),
            line: st.line + 1,
            widest: st2.widest,
            ..st
        }) && widest_ok(st2.widest, st.num_vars),
        forall|k: int| 0 <= k < clause_line(c).len() ==> (#[trigger] clause_line(c)[k]) != 10,
{
    let line = clause_line(c);
    let n = st.line + 1;
    let st1 = ReadState { line: n, ..st };
    let ws = lit_words(c).push(seq![48u8]);
    lemma_lit_words(c);
    assert(word(seq![48u8]));
    assert(all_words(ws)) by {
        assert forall|k: int| 0 <= k < ws.len() implies word(#[trigger] ws[k]) by {
            if k < c.len() {
                assert(ws[k] == lit_words(c)[k]);
            }
        }
    }
    assert(tokens_from(line, line.len() as int) == Seq::<Seq<u8>>::empty());
    if c.len() == 0 {
        assert(joined(c) == Seq::<u8>::empty());
        assert(line =~= seq![32u8, 48u8]);
        assert(line.subrange(1, 2) =~= seq![48u8]);
        assert forall|k: int| 0 <= k < 1 implies is_space(#[trigger] line[k]) by {}
        lemma_one_word(line, 0, 1, seq![48u8]);
        assert(ws =~= seq![seq![48u8]]);
        assert(tokens(line) == ws);
        lemma_skip_to(line, 0, 1);
        assert(line[skip_space(line, 0)] == 48);
    } else {
        lemma_joined_spaced(c);
        lemma_spaced_push(lit_words(c), seq![48u8]);
        assert(line =~= spaced(ws));
        assert(line.subrange(0, line.len() as int) =~= line);
        lemma_spaced_tokens(line, 0, ws);
        assert(tokens(line) =~= ws);
        lemma_spaced_bytes(ws);
        assert(ws[0] == signed_decimal(c[0]));
        lemma_signed_word(c[0]);
        assert(!is_space(line[0]));
        lemma_skip_to(line, 0, 0);
        assert(!ws[0].contains(46));
    }
    assert(tokens(line)[0] == ws[0]);
    if c.len() == 0 {
        assert(line =~= seq![32u8, 48u8]);
        lemma_ascii_text(line, 0);
        assert(line.subrange(0, line.len() as int) =~= line);
    } else {
        assert(ascii_words(ws)) by {
            assert forall|k: int, i: int| 0 <= k < ws.len() && 0 <= i < ws[k].len() implies #[trigger] ws[k][i] < 128 by {
                if k < c.len() {
                    assert(ws[k] == signed_decimal(c[k]));
                    lemma_signed_word(c[k]);
                    assert(signed_decimal(c[k])[i] == 45 || is_digit(signed_decimal(c[k])[i]));
                } else {
                    assert(ws[k] == seq![48u8]);
                }
            }
        }
        lemma_spaced_ascii(ws);
    }
    assert(st1.current == c.take(0));
    lemma_clause_fold(st1, c, 0, n);
    assert(line_step(st, line) == clause_fold(st1, ws, 0, n));
    assert forall|k: int| 0 <= k < line.len() implies (#[trigger] line[k]) != 10 by {
        if c.len() > 0 {
            lemma_spaced_bytes(ws);
            assert(line[k] == spaced(ws)[k]);
        }
    }
}

/// The problem line without its line feed.
pub open spec fn problem_line(num_vars: nat, num_clauses: nat) -> Seq<u8> {
    ascii_of("p cnf "@) + decimal(num_vars) + seq![32u8] + decimal(num_clauses)
}

/// The problem line sets the variable count, and holds no line feed.
proof fn lemma_problem_line(st: ReadState, num_vars: u32, num_clauses: nat)
    requires
        num_clauses <= usize::MAX,
    ensures
        line_step(st, problem_line(num_vars as nat, num_clauses)) == Ok::<(ReadState, bool), Seq<u8>>(
            (ReadState { num_vars: num_vars, line: st.line + 1, ..st }, false),
        ),
        problem_text(num_vars as nat, num_clauses) == problem_line(num_vars as nat, num_clauses) + seq![10u8],
        forall|k: int| 0 <= k < problem_line(num_vars as nat, num_clauses).len()
            ==> (#[trigger] problem_line(num_vars as nat, num_clauses)[k]) != 10,
{
    reveal_strlit("p cnf ");
    reveal_strlit("cnf");
    let line = problem_line(num_vars as nat, num_clauses);
    let p = seq![112u8];
    let cnf = seq![99u8, 110u8, 102u8];
    let dv = decimal(num_vars as nat);
    let dc = decimal(num_clauses);
    lemma_decimal_word(num_vars as nat, false);
    lemma_decimal_word(num_clauses, false);
    assert(ascii_of("p cnf "@) =~= seq![112u8, 32u8, 99u8, 110u8, 102u8, 32u8]);
    assert(ascii_of("cnf"@) =~= cnf);
    let ws = seq![p, cnf, dv, dc];
    assert(word(p));
    assert(word(cnf));
    assert(all_words(ws));
    assert(ws.drop_last() =~= seq![p, cnf, dv]);
    assert(ws.drop_last().drop_last() =~= seq![p, cnf]);
    assert(ws.drop_last().drop_last().drop_last() =~= seq![p]);
    assert(spaced(seq![p]) == p);
    assert(spaced(seq![p, cnf]) == p + seq![32u8] + cnf);
    assert(spaced(seq![p, cnf, dv]) == spaced(seq![p, cnf]) + seq![32u8] + dv);
    assert(spaced(ws) == spaced(seq![p, cnf, dv]) + seq![32u8] + dc);
    assert(line =~= spaced(ws));
    assert(ascii_words(ws)) by {
        assert forall|k: int, i: int| 0 <= k < ws.len() && 0 <= i < ws[k].len() implies #[trigger] ws[k][i] < 128 by {
            if k == 2 {
                assert(is_digit(dv[i]));
            } else if k == 3 {
                assert(is_digit(dc[i]));
            }
        }
    }
    lemma_spaced_ascii(ws);
    assert(line.subrange(0, line.len() as int) =~= line);
    lemma_spaced_tokens(line, 0, ws);
    assert(tokens_from(line, line.len() as int) == Seq::<Seq<u8>>::empty());
    assert(tokens(line) =~= ws);
    lemma_skip_to(line, 0, 0);
    assert(line[0] == 112);
    assert(problem_text(num_vars as nat, num_clauses) =~= line + seq![10u8]);
    lemma_spaced_bytes(ws);
    assert forall|k: int| 0 <= k < line.len() implies (#[trigger] line[k]) != 10 by {
        assert(line[k] == spaced(ws)[k]);
    }
}

/// The text of the first `k` clauses begins the text of them all, and one
/// more clause adds its line.
proof fn lemma_clauses_prefix(cs: Seq<Seq<int>>, k: int)
    requires
        0 <= k <= cs.len(),
    ensures
        clauses_text(cs.take(k)).len() <= clauses_text(cs).len(),
        clauses_text(cs).subrange(0, clauses_text(cs.take(k)).len() as int) == clauses_text(cs.take(k)),
        k < cs.len() ==> clauses_text(cs.take(k + 1)) == clauses_text(cs.take(k)) + clause_text(cs[k]),
    decreases cs.len(),
{
    if k < cs.len() {
        assert(cs.take(k + 1).drop_last() =~= cs.take(k));
        assert(cs.take(k + 1).last() == cs[k]);
    }
    if k == cs.len() {
        assert(cs.take(k) =~= cs);
        assert(clauses_text(cs).subrange(0, clauses_text(cs).len() as int) =~= clauses_text(cs));
    } else {
        let front = cs.drop_last();
        lemma_clauses_prefix(front, k);
        assert(front.take(k) =~= cs.take(k));
        let t = clauses_text(front);
        let u = clauses_text(cs.take(k));
        assert(clauses_text(cs) == t + clause_text(cs.last()));
        assert(clauses_text(cs).subrange(0, u.len() as int) =~= t.subrange(0, u.len() as int));
    }
}

/// A formula's clauses, as the lines after the problem line, read into the
/// state one clause each.
proof fn lemma_read_clauses(text: Seq<u8>, b: int, cs: Seq<Seq<int>>, k: int, st: ReadState)
    requires
        0 <= b,
        text.len() == b + clauses_text(cs).len(),
        text.subrange(b, text.len() as int) == clauses_text(cs),
        0 <= k <= cs.len(),
        st.clauses == cs.take(k),
        st.current == Seq::<int>::empty(),
        widest_ok(st.widest, st.num_vars),
        forall|i: int| 0 <= i < cs.len() ==> clause_fits(#[trigger] cs[i], st.num_vars),
    ensures
        read_from(text, b + clauses_text(cs.take(k)).len(), st) matches Ok(fin) && fin == (ReadState {
            clauses: cs,
            line: fin.line,
            widest: fin.widest,
            ..st
        }) && widest_ok(fin.widest, st.num_vars),
    decreases cs.len() - k,
{
    lemma_clauses_prefix(cs, k);
    let pos = b + clauses_text(cs.take(k)).len();
    if k == cs.len() {
        assert(cs.take(k) =~= cs);
    } else {
        let c = cs[k];
        assert(clause_fits(c, st.num_vars));
        lemma_clause_line(st, c);
        lemma_clauses_prefix(cs, k + 1);
        let line = clause_line(c);
        let u = clauses_text(cs.take(k));
        let u1 = clauses_text(cs.take(k + 1));
        assert(u1 == u + line + seq![10u8]);
        let e = pos + line.len();
        assert forall|q: int| 0 <= q < line.len() + 1 implies text[pos + q] == (line + seq![10u8])[q] by {
            assert(text.subrange(b, text.len() as int)[u.len() + q] == clauses_text(cs)[u.len() + q]);
            assert(clauses_text(cs).subrange(0, u1.len() as int)[u.len() + q] == u1[u.len() + q]);
        }
        assert(text.subrange(pos, e) =~= line) by {
            assert forall|q: int| 0 <= q < line.len() implies text.subrange(pos, e)[q] == line[q] by {
                assert(text[pos + q] == (line + seq![10u8])[q]);
            }
        }
        assert(text[e] == 10) by {
            assert(text[pos + line.len()] == (line + seq![10u8])[line.len() as int]);
        }
        assert forall|q: int| pos <= q < e implies (#[trigger] text[q]) != 10 by {
            assert(text[pos + (q - pos)] == (line + seq![10u8])[q - pos]);
            assert(line[q - pos] != 10);
        }
        lemma_find_at(text, pos, e, 10);
        let st2 = line_step(st, line)->Ok_0.0;
        assert(st2.clauses == cs.take(k + 1)) by {
            assert(cs.take(k).push(c) =~= cs.take(k + 1));
        }
        lemma_read_clauses(text, b, cs, k + 1, st2);
    }
}

/// A formula the DIMACS text can carry exactly: a declared variable wherever
/// there is a clause (a bare `p cnf 0` line with clauses is refused), every
/// literal naming a declared variable with an `i32` spelling, and each
/// clause's literals strictly ascending by variable — the one order the
/// reader gives a clause, which also makes it no tautology. (That a `Vec`
/// holds at most `usize::MAX` clauses is said too: every formula meets it.)
pub open spec fn rereadable(f: CnfFormula) -> bool {
    &&& f.num_vars >= 1 || f.clauses@.len() == 0
    &&& f.clauses@.len() <= usize::MAX
    &&& forall|i: int, j: int|
        0 <= i < f.clauses@.len() && 0 <= j < f.clauses@[i].literals@.len() ==> {
            let n = (#[trigger] f.clauses@[i].literals@[j]).var.number();
            1 <= n <= f.num_vars && n <= i32::MAX
        }
    &&& forall|i: int, j: int, k: int|
        0 <= i < f.clauses@.len() && 0 <= j < k < f.clauses@[i].literals@.len()
            ==> (#[trigger] f.clauses@[i].literals@[j]).var.number() < (#[trigger] f.clauses@[i].literals@[k]).var.number()
}

/// Reading back what [`CnfFormula::write_dimacs`](super::CnfFormula::write_dimacs)
/// writes gives the same formula: the reader accepts the text, ends with the
/// written variable count and the written clauses, literal for literal, and
/// finds no track, show set or weight in it.
pub proof fn lemma_write_then_read(f: CnfFormula)
    requires
        rereadable(f),
    ensures
        dimacs_spec(dimacs_text(f)) matches Ok(st) && formula_is(f, st) && st.track is None && !st.saw_show
            && st.weights.len() == 0,
{
    let cs = clause_ints(f.clauses@);
    let nv = f.num_vars;
    let m = f.clauses@.len();
    let text = dimacs_text(f);
    let pl = problem_line(nv as nat, m);
    lemma_problem_line(initial_state(), nv, m);
    let b: int = pl.len() as int + 1;
    assert(text == pl + seq![10u8] + clauses_text(cs));
    assert(text.subrange(0, pl.len() as int) =~= pl);
    assert(text[pl.len() as int] == 10);
    assert forall|q: int| 0 <= q < pl.len() implies (#[trigger] text[q]) != 10 by {
        assert(text[q] == pl[q]);
    }
    lemma_find_at(text, 0, pl.len() as int, 10);
    let st0 = ReadState { num_vars: nv, line: 1, ..initial_state() };
    assert(read_from(text, 0, initial_state()) == read_from(text, b, st0));
    assert(text.subrange(b, text.len() as int) =~= clauses_text(cs));
    assert forall|i: int| 0 <= i < cs.len() implies clause_fits(#[trigger] cs[i], nv) by {
        let lits = f.clauses@[i].literals@;
        assert(cs[i] == lit_ints(lits));
        assert forall|a: int, c: int| 0 <= a < c < cs[i].len() implies magnitude(#[trigger] cs[i][a]) < magnitude(#[trigger] cs[i][c]) by {
            assert(lits[a].var.number() < lits[c].var.number());
        }
        assert forall|a: int| 0 <= a < cs[i].len() implies 1 <= magnitude(#[trigger] cs[i][a]) <= nv && magnitude(cs[i][a]) <= i32::MAX by {
            let n = lits[a].var.number();
            assert(1 <= n <= nv && n <= i32::MAX);
        }
    }
    assert(cs.take(0) =~= Seq::<Seq<int>>::empty());
    assert(clauses_text(Seq::<Seq<int>>::empty()) == Seq::<u8>::empty());
    lemma_read_clauses(text, b, cs, 0, st0);
    let fin = read_from(text, b, st0)->Ok_0;
    assert(finish_spec(fin) == Ok::<ReadState, Seq<u8>>(fin));
}

/// The signed-integer form of a list of clauses names it: two lists of
/// clauses over variables numbered from 1 with the same form are equal,
/// literal for literal.
pub proof fn lemma_clause_ints_determine(a: Seq<super::Clause>, b: Seq<super::Clause>)
    requires
        forall|i: int, j: int| 0 <= i < a.len() && 0 <= j < a[i].literals@.len() ==> (#[trigger] a[i].literals@[j]).var.number() >= 1,
        forall|i: int, j: int| 0 <= i < b.len() && 0 <= j < b[i].literals@.len() ==> (#[trigger] b[i].literals@[j]).var.number() >= 1,
        clause_ints(a) == clause_ints(b),
    ensures
        a.len() == b.len(),
        forall|i: int| 0 <= i < a.len() ==> (#[trigger] a[i]).literals@ == b[i].literals@,
{
    assert(clause_ints(a).len() == a.len());
    assert(clause_ints(b).len() == b.len());
    assert forall|i: int| 0 <= i < a.len() implies (#[trigger] a[i]).literals@ == b[i].literals@ by {
        assert(clause_ints(a)[i] == clause_ints(b)[i]);
        assert(clause_ints(a)[i] == lit_ints(a[i].literals@));
        assert(clause_ints(b)[i] == lit_ints(b[i].literals@));
        let la = a[i].literals@;
        let lb = b[i].literals@;
        assert(lit_ints(la) == lit_ints(lb));
        assert(lit_ints(la).len() == lit_ints(lb).len());
        assert(lit_ints(la).len() == la.len());
        assert(lit_ints(lb).len() == lb.len());
        assert forall|j: int| 0 <= j < la.len() implies la[j] == lb[j] by {
            assert(lit_ints(la)[j] == lit_ints(lb)[j]);
            assert(lit_ints(la)[j] == super::literal::literal_dimacs(la[j]));
            assert(lit_ints(lb)[j] == super::literal::literal_dimacs(lb[j]));
            assert(la[j].var.number() >= 1);
            assert(lb[j].var.number() >= 1);
            assert(la[j].positive == lb[j].positive);
            assert(la[j].var.number() == lb[j].var.number());
            la[j].var.lemma_number_determines(lb[j].var);
        }
        assert(la =~= lb);
    }
}

/// A line and its line feed at `pos` read into the state the line steps to,
/// and reading goes on after the line feed.
proof fn lemma_read_line(text: Seq<u8>, pos: int, line: Seq<u8>, st: ReadState, st2: ReadState)
    requires
        0 <= pos,
        pos + line.len() < text.len(),
        text.subrange(pos, pos + line.len()) == line,
        text[pos + line.len()] == 10,
        forall|k: int| 0 <= k < line.len() ==> (#[trigger] line[k]) != 10,
        line_step(st, line) == Ok::<(ReadState, bool), Seq<u8>>((st2, false)),
    ensures
        read_from(text, pos, st) == read_from(text, pos + line.len() + 1, st2),
{
    let e = pos + line.len();
    assert forall|q: int| pos <= q < e implies (#[trigger] text[q]) != 10 by {
        assert(text.subrange(pos, e)[q - pos] == line[q - pos]);
    }
    lemma_find_at(text, pos, e, 10);
}

/// Every entry of `s` written in decimal.
pub open spec fn decimal_words(s: Seq<u32>) -> Seq<Seq<u8>> {
    s.map_values(|v: u32| decimal(v as nat))
}

/// The show variables after the three opening words are those words spaced.
proof fn lemma_show_items(pre: Seq<Seq<u8>>, s: Seq<u32>)
    requires
        pre.len() >= 1,
    ensures
        spaced(pre) + show_items(s) == spaced(pre + decimal_words(s)),
    decreases s.len(),
{
    if s.len() == 0 {
        assert(pre + decimal_words(s) =~= pre);
        assert(spaced(pre) + show_items(s) =~= spaced(pre));
    } else {
        lemma_show_items(pre, s.drop_last());
        assert(decimal_words(s.drop_last()) =~= decimal_words(s).drop_last());
        let front = pre + decimal_words(s.drop_last());
        assert(pre + decimal_words(s) =~= front.push(decimal(s.last() as nat)));
        lemma_spaced_push(front, decimal(s.last() as nat));
        assert(spaced(pre) + show_items(s) =~= spaced(pre) + show_items(s.drop_last()) + seq![32u8] + decimal(s.last() as nat));
    }
}

/// The `c t` line of a counting track, without its line feed, records the
/// track.
proof fn lemma_track_line(st: ReadState, m: Mode)
    requires
        m != Mode::Compile,
    ensures
        line_step(st, track_line(m).drop_last()) == Ok::<(ReadState, bool), Seq<u8>>(
            (ReadState { track: Some(m), line: st.line + 1, ..st }, false),
        ),
        track_line(m).last() == 10,
        forall|k: int| 0 <= k < track_line(m).drop_last().len() ==> (#[trigger] track_line(m).drop_last()[k]) != 10,
{
    reveal_strlit("c t ");
    reveal_strlit("c");
    reveal_strlit("t");
    reveal_strlit("mc");
    reveal_strlit("wmc");
    reveal_strlit("pmc");
    reveal_strlit("pwmc");
    let line = track_line(m).drop_last();
    let tok = ascii_of(mode_token(m));
    let c = seq![99u8];
    let t = seq![116u8];
    assert(ascii_of("c"@) =~= c);
    assert(ascii_of("t"@) =~= t);
    assert(ascii_of("c t "@) =~= seq![99u8, 32u8, 116u8, 32u8]);
    assert(word(tok)) by {
        assert forall|i: int| 0 <= i < tok.len() implies !is_space(#[trigger] tok[i]) by {
            assert(tok[i] >= 97);
        }
    }
    assert(ascii_of("mc"@) =~= seq![109u8, 99u8]);
    assert(ascii_of("wmc"@) =~= seq![119u8, 109u8, 99u8]);
    assert(ascii_of("pmc"@) =~= seq![112u8, 109u8, 99u8]);
    assert(ascii_of("pwmc"@) =~= seq![112u8, 119u8, 109u8, 99u8]);
    assert(track_token(tok) == Some(m));
    let ws = seq![c, t, tok];
    assert(word(c));
    assert(word(t));
    assert(all_words(ws));
    assert(ws.drop_last() =~= seq![c, t]);
    assert(ws.drop_last().drop_last() =~= seq![c]);
    assert(spaced(seq![c]) == c);
    assert(spaced(seq![c, t]) == c + seq![32u8] + t);
    assert(spaced(ws) == spaced(seq![c, t]) + seq![32u8] + tok);
    assert(line =~= spaced(ws));
    assert(ascii_words(ws)) by {
        assert forall|k: int, i: int| 0 <= k < ws.len() && 0 <= i < ws[k].len() implies #[trigger] ws[k][i] < 128 by {
            if k == 2 {
                assert(tok[i] < 128);
            }
        }
    }
    lemma_spaced_ascii(ws);
    assert(line.subrange(0, line.len() as int) =~= line);
    lemma_spaced_tokens(line, 0, ws);
    assert(tokens_from(line, line.len() as int) == Seq::<Seq<u8>>::empty());
    assert(tokens(line) =~= ws);
    lemma_skip_to(line, 0, 0);
    lemma_spaced_bytes(ws);
    assert forall|k: int| 0 <= k < line.len() implies (#[trigger] line[k]) != 10 by {
        assert(line[k] == spaced(ws)[k]);
    }
    assert(comment_step(ReadState { line: st.line + 1, ..st }, ws, st.line + 1) == Ok::<(ReadState, bool), Seq<u8>>(
        (ReadState { track: Some(m), line: st.line + 1, ..st }, false),
    ));
}

/// Show variables as the reader holds them.
pub open spec fn show_ints(s: Seq<u32>) -> Seq<int> {
    s.map_values(|v: u32| v as int)
}

/// The three words a show line opens with.
pub open spec fn show_opening() -> Seq<Seq<u8>> {
    seq![seq![99u8], seq![112u8], seq![115u8, 104u8, 111u8, 119u8]]
}

/// The tokens of a show line for `s`.
pub open spec fn show_tokens(s: Seq<u32>) -> Seq<Seq<u8>> {
    (show_opening() + decimal_words(s)).push(seq![48u8])
}

/// The show variables of a show line, from the `i`-th on, are read in order.
proof fn lemma_show_fold(st: ReadState, s: Seq<u32>, i: int, n: int)
    requires
        0 <= i <= s.len(),
        st.show == show_ints(s.take(i)),
        widest_ok(st.widest, st.num_vars),
        forall|k: int| 0 <= k < s.len() ==> 1 <= #[trigger] s[k] <= st.num_vars,
    ensures
        show_fold(st, show_tokens(s), 3 + i, n) matches Ok((st2, stop)) && !stop && st2 == (ReadState {
            show: show_ints(s),
            widest: st2.widest,
            ..st
        }) && widest_ok(st2.widest, st.num_vars),
    decreases s.len() - i,
{
    let toks = show_tokens(s);
    assert(toks.len() == 4 + s.len());
    if i == s.len() {
        assert(toks[3 + i] == seq![48u8]);
        assert(seq![48u8].drop_last() =~= Seq::<u8>::empty());
        assert(digits_value(Seq::<u8>::empty()) == 0);
        assert(all_digits(seq![48u8]));
        assert(int_text(seq![48u8], true) == Some(0int));
        assert(s.take(i) =~= s);
    } else {
        let v = s[i];
        assert(toks[3 + i] == decimal(v as nat));
        lemma_decimal_word(v as nat, true);
        let w2 = note_spec(st.widest, IdSite::ShowVar, v as i64, n as usize);
        assert(widest_ok(w2, st.num_vars));
        let st1 = ReadState { widest: w2, show: st.show.push(v as int), ..st };
        assert(st.show.push(v as int) =~= show_ints(s.take(i + 1)));
        lemma_show_fold(st1, s, i + 1, n);
    }
}

/// The `c p show` line of a canonical set inside the declared count, without
/// its line feed, records the set.
proof fn lemma_show_line(st: ReadState, s: Seq<u32>)
    requires
        canonical(s),
        forall|k: int| 0 <= k < s.len() ==> #[trigger] s[k] <= st.num_vars,
        widest_ok(st.widest, st.num_vars),
        st.show == Seq::<int>::empty(),
    ensures
        line_step(st, show_line(s).drop_last()) matches Ok((st2, stop)) && !stop && st2 == (ReadState {
            saw_show: true,
            show: show_ints(s),
            line: st.line + 1,
            widest: st2.widest,
            ..st
        }) && widest_ok(st2.widest, st.num_vars),
        show_line(s).last() == 10,
        forall|k: int| 0 <= k < show_line(s).drop_last().len() ==> (#[trigger] show_line(s).drop_last()[k]) != 10,
{
    reveal_strlit("c p show");
    reveal_strlit("c");
    reveal_strlit("p");
    reveal_strlit("show");
    reveal_strlit("t");
    let line = show_line(s).drop_last();
    let pre = show_opening();
    let ws = show_tokens(s);
    assert(ascii_of("c"@) =~= pre[0]);
    assert(ascii_of("p"@) =~= pre[1]);
    assert(ascii_of("show"@) =~= pre[2]);
    assert(ascii_of("c p show"@) =~= seq![99u8, 32u8, 112u8, 32u8, 115u8, 104u8, 111u8, 119u8]);
    assert(pre.drop_last() =~= seq![pre[0], pre[1]]);
    assert(pre.drop_last().drop_last() =~= seq![pre[0]]);
    assert(spaced(seq![pre[0]]) == pre[0]);
    assert(spaced(seq![pre[0], pre[1]]) == pre[0] + seq![32u8] + pre[1]);
    assert(spaced(pre) == spaced(seq![pre[0], pre[1]]) + seq![32u8] + pre[2]);
    assert(spaced(pre) =~= ascii_of("c p show"@));
    lemma_show_items(pre, s);
    lemma_spaced_push(pre + decimal_words(s), seq![48u8]);
    assert(line =~= spaced(ws));
    assert forall|k: int| 0 <= k < ws.len() implies word(#[trigger] ws[k]) by {
        if k < 3 {
        } else if k < 3 + s.len() {
            assert(ws[k] == decimal(s[k - 3] as nat));
            lemma_decimal_word(s[k - 3] as nat, true);
        } else {
            assert(ws[k] == seq![48u8]);
        }
    }
    assert(ascii_words(ws)) by {
        assert forall|k: int, i: int| 0 <= k < ws.len() && 0 <= i < ws[k].len() implies #[trigger] ws[k][i] < 128 by {
            if k < 3 {
            } else if k < 3 + s.len() {
                assert(ws[k] == decimal(s[k - 3] as nat));
                lemma_decimal_word(s[k - 3] as nat, true);
                assert(is_digit(decimal(s[k - 3] as nat)[i]));
            } else {
                assert(ws[k] == seq![48u8]);
            }
        }
    }
    lemma_spaced_ascii(ws);
    assert(line.subrange(0, line.len() as int) =~= line);
    lemma_spaced_tokens(line, 0, ws);
    assert(tokens_from(line, line.len() as int) == Seq::<Seq<u8>>::empty());
    assert(tokens(line) =~= ws);
    lemma_spaced_bytes(ws);
    assert(line[0] == 99);
    lemma_skip_to(line, 0, 0);
    assert forall|k: int| 0 <= k < line.len() implies (#[trigger] line[k]) != 10 by {
        assert(line[k] == spaced(ws)[k]);
    }
    let n = st.line + 1;
    let st1 = ReadState { line: n, ..st };
    assert forall|k: int| 0 <= k < s.len() implies 1 <= #[trigger] s[k] <= st1.num_vars by {
        if s[k] == 0 {
            assert(s.contains(0));
        }
    }
    assert(s.take(0) =~= Seq::<u32>::empty());
    assert(show_ints(s.take(0)) =~= Seq::<int>::empty());
    lemma_show_fold(ReadState { saw_show: true, ..st1 }, s, 0, n);
    assert(line_step(st, line) == show_fold(ReadState { saw_show: true, ..st1 }, ws, 3, n));
}

/// A piece of text that ends in a line feed, found between what comes before
/// and after it.
proof fn lemma_piece(pre: Seq<u8>, piece: Seq<u8>, post: Seq<u8>)
    requires
        piece.len() >= 1,
        piece.last() == 10,
    ensures
        (pre + piece + post).subrange(pre.len() as int, pre.len() + piece.len() - 1) == piece.drop_last(),
        (pre + piece + post)[pre.len() + piece.len() - 1] == 10,
{
    let text = pre + piece + post;
    assert(text.subrange(pre.len() as int, pre.len() + piece.len() - 1) =~= piece.drop_last()) by {
        assert forall|k: int| 0 <= k < piece.len() - 1 implies text.subrange(pre.len() as int, pre.len() + piece.len() - 1)[k] == piece.drop_last()[k] by {
            assert(text[pre.len() + k] == piece[k]);
        }
    }
    assert(text[pre.len() + piece.len() - 1] == piece[piece.len() - 1]);
}

/// A show set the header can carry: canonical, and inside the declared
/// variable count.
pub open spec fn show_fits(s: Seq<u32>, num_vars: u32) -> bool {
    canonical(s) && forall|k: int| 0 <= k < s.len() ==> #[trigger] s[k] <= num_vars
}

/// Every clause of a formula the text can carry fits its declared count.
proof fn lemma_clauses_fit(f: CnfFormula)
    requires
        rereadable(f),
    ensures
        forall|i: int| 0 <= i < clause_ints(f.clauses@).len() ==> clause_fits(#[trigger] clause_ints(f.clauses@)[i], f.num_vars),
{
    let cs = clause_ints(f.clauses@);
    let nv = f.num_vars;
    assert forall|i: int| 0 <= i < cs.len() implies clause_fits(#[trigger] cs[i], nv) by {
        let lits = f.clauses@[i].literals@;
        assert(cs[i] == lit_ints(lits));
        assert forall|a: int, c: int| 0 <= a < c < cs[i].len() implies magnitude(#[trigger] cs[i][a]) < magnitude(#[trigger] cs[i][c]) by {
            assert(lits[a].var.number() < lits[c].var.number());
        }
        assert forall|a: int| 0 <= a < cs[i].len() implies 1 <= magnitude(#[trigger] cs[i][a]) <= nv && magnitude(cs[i][a]) <= i32::MAX by {
            let n = lits[a].var.number();
            assert(1 <= n <= nv && n <= i32::MAX);
        }
    }
}

/// The state after an optional track line.
pub open spec fn after_track(st: ReadState, track: Option<Mode>) -> ReadState {
    match track {
        Some(m) => ReadState { track: Some(m), line: st.line + 1, ..st },
        None => st,
    }
}

/// The text of an optional track line.
pub open spec fn track_text(track: Option<Mode>) -> Seq<u8> {
    match track {
        Some(m) => track_line(m),
        None => Seq::empty(),
    }
}

/// The text of an optional show line.
pub open spec fn show_text(show: Option<Seq<u32>>) -> Seq<u8> {
    match show {
        Some(s) => show_line(s),
        None => Seq::empty(),
    }
}

/// An optional track line between `pre` and `post` is read into the state.
proof fn lemma_read_track(pre: Seq<u8>, post: Seq<u8>, st: ReadState, track: Option<Mode>)
    requires
        track != Some(Mode::Compile),
    ensures
        read_from(pre + track_text(track) + post, pre.len() as int, st) == read_from(
            pre + track_text(track) + post,
            pre.len() + track_text(track).len() as int,
            after_track(st, track),
        ),
{
    match track {
        Some(m) => {
            lemma_track_line(st, m);
            lemma_piece(pre, track_line(m), post);
            lemma_read_line(pre + track_text(track) + post, pre.len() as int, track_line(m).drop_last(), st, after_track(st, track));
        },
        None => {},
    }
}

/// An optional show line between `pre` and `post` is read into the state.
proof fn lemma_read_show(pre: Seq<u8>, post: Seq<u8>, st: ReadState, show: Option<Seq<u32>>)
    requires
        show matches Some(s) ==> show_fits(s, st.num_vars),
        widest_ok(st.widest, st.num_vars),
        st.show == Seq::<int>::empty(),
    ensures
        exists|st2: ReadState| {
            &&& read_from(pre + show_text(show) + post, pre.len() as int, st) == read_from(
                pre + show_text(show) + post,
                pre.len() + show_text(show).len() as int,
                st2,
            )
            &&& st2 == (ReadState {
                saw_show: st.saw_show || show is Some,
                show: match show {
                    Some(s) => show_ints(s),
                    None => st.show,
                },
                line: st2.line,
                widest: st2.widest,
                ..st
            })
            &&& widest_ok(st2.widest, st.num_vars)
        },
{
    match show {
        Some(s) => {
            lemma_show_line(st, s);
            let st2 = line_step(st, show_line(s).drop_last())->Ok_0.0;
            lemma_piece(pre, show_line(s), post);
            lemma_read_line(pre + show_text(show) + post, pre.len() as int, show_line(s).drop_last(), st, st2);
            assert(st2 == (ReadState {
                saw_show: st.saw_show || show is Some,
                show: show_ints(s),
                line: st2.line,
                widest: st2.widest,
                ..st
            }));
        },
        None => {
            assert(st == (ReadState {
                saw_show: st.saw_show || show is Some,
                show: st.show,
                line: st.line,
                widest: st.widest,
                ..st
            }));
        },
    }
}

/// Reading back what [`CnfFormula::write_dimacs_with_header`](super::CnfFormula::write_dimacs_with_header)
/// writes without weight rows gives the formula, the track and the show set
/// back: the reader accepts the text, ends with the written variable count and
/// clauses, the written track, a show line exactly when one was written and
/// then its variables in order, and no weight. A `compile` track is left out:
/// no `c t` line can name it.
#[verifier::spinoff_prover]
#[verifier::rlimit(60)]
pub proof fn lemma_header_then_read(f: CnfFormula, track: Option<Mode>, show: Option<Seq<u32>>)
    requires
        rereadable(f),
        track != Some(Mode::Compile),
        show matches Some(s) ==> show_fits(s, f.num_vars),
    ensures
        dimacs_spec(
            problem_text(f.num_vars as nat, f.clauses@.len()) + header_text(track, show, None) + clauses_text(
                clause_ints(f.clauses@),
            ),
        ) matches Ok(st) && formula_is(f, st) && st.track == track && st.saw_show == (show is Some) && (show matches Some(
            s,
        ) ==> st.show == show_ints(s)) && st.weights.len() == 0,
{
    let cs = clause_ints(f.clauses@);
    let nv = f.num_vars;
    let m = f.clauses@.len();
    let p = problem_text(nv as nat, m);
    let t = track_text(track);
    let sh = show_text(show);
    let body = clauses_text(cs);
    let text = p + header_text(track, show, None) + body;
    assert(header_text(track, show, None) =~= t + sh);
    assert(text =~= p + t + sh + body);
    lemma_problem_line(initial_state(), nv, m);
    let pl = problem_line(nv as nat, m);
    lemma_piece(Seq::<u8>::empty(), p, t + sh + body);
    assert(Seq::<u8>::empty() + p + (t + sh + body) =~= text);
    assert(p.drop_last() =~= pl);
    let st0 = ReadState { num_vars: nv, line: 1, ..initial_state() };
    lemma_read_line(text, 0, pl, initial_state(), st0);
    lemma_read_track(p, sh + body, st0, track);
    assert(p + t + (sh + body) =~= text);
    let st1 = after_track(st0, track);
    lemma_read_show(p + t, body, st1, show);
    assert(p + t + sh + body =~= text);
    let st2 = choose|st2: ReadState| {
        &&& read_from(p + t + show_text(show) + body, (p + t).len() as int, st1) == read_from(
            p + t + show_text(show) + body,
            (p + t).len() + show_text(show).len() as int,
            st2,
        )
        &&& st2 == (ReadState {
            saw_show: st1.saw_show || show is Some,
            show: match show {
                Some(s) => show_ints(s),
                None => st1.show,
            },
            line: st2.line,
            widest: st2.widest,
            ..st1
        })
        &&& widest_ok(st2.widest, st1.num_vars)
    };
    let b2: int = (p.len() + t.len() + sh.len()) as int;
    assert(read_from(text, 0, initial_state()) == read_from(text, b2, st2));
    assert(text.subrange(b2, text.len() as int) =~= body);
    lemma_clauses_fit(f);
    assert(cs.take(0) =~= Seq::<Seq<int>>::empty());
    assert(clauses_text(Seq::<Seq<int>>::empty()) == Seq::<u8>::empty());
    lemma_read_clauses(text, b2, cs, 0, st2);
    let fin = read_from(text, b2, st2)->Ok_0;
    assert(finish_spec(fin) == Ok::<ReadState, Seq<u8>>(fin)) by {
        if fin.num_vars == 0 {
            assert(cs.len() == 0);
        }
    }
}

} // verus!
