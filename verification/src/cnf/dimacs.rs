//! DIMACS CNF text ↔ [`CnfFormula`] plus the [`CnfMeta`] the competition
//! meta-comment lines declare.
//!
//! One reader and one writer, so the line kinds one accepts and the other emits
//! are decided together. The reader is stated as a function on the bytes of
//! the file ([`dimacs_spec`]): a fold of [`line_step`] over its lines, then
//! [`finish_spec`]. The range rule every id-bearing construct is held to lives
//! here too ([`WidestId`]), so a new construct is wired into it rather than
//! given a check of its own.

use super::lexer::{fold_spaces, folded, int_in, is_utf8, read_i32, read_i64, read_u32, read_usize, skip_space, skip_spaces, token_spans, tokens, valid_utf8};
use super::weights::{parse_weight, parts_of, rows_view, weight_fault_text, weight_spec, ExactWeight, WeightParts, WeightTable};
use super::{Clause, CnfFormula, CnfMeta, Literal, Mode, Original, ShowSet, VarId};
use crate::error::{ErrorKind, VitriError};
use crate::text::{
    ascii_chars, ascii_of, ascii_text, decimal, is_ascii_bytes, push_decimal, push_literal, push_quoted,
    push_shown, push_signed, quoted, shown, signed_decimal,
};
use super::literal::literal_dimacs;
use vstd::prelude::*;

verus! {

// ---------------------------------------------------------------------------
// The range rule
// ---------------------------------------------------------------------------

/// Which construct named a variable id.
#[derive(Clone, Copy, Debug, PartialEq, Eq, Structural)]
pub enum IdSite {
    /// A literal of a clause.
    ClauseLiteral,
    /// A variable of a `c p show` line.
    ShowVar,
    /// The literal of a `c p weight` line.
    WeightLiteral,
}

/// The words a message names a site with.
pub open spec fn site_words(s: IdSite) -> Seq<u8> {
    match s {
        IdSite::ClauseLiteral => ascii_of("clause literal"@),
        IdSite::ShowVar => ascii_of("show var"@),
        IdSite::WeightLiteral => ascii_of("weight literal"@),
    }
}

/// The widest variable id the file named, and which line named it.
///
/// The `p cnf` header declares the variable count, and every id written
/// anywhere in the file must fall inside it. Checked after the whole file is
/// read, not at each site: the declared count isn't known until the `p` line,
/// and meta-comment lines aren't required to come after it. Only the widest
/// id is kept — it decides whether anything is out of range.
#[derive(Clone, Copy, Debug, PartialEq, Eq, Structural)]
pub struct WidestId {
    /// What named it.
    pub site: IdSite,
    /// The id exactly as the file spells it, sign included.
    pub written: i64,
    /// The 1-based line the id was written on.
    pub line: usize,
}

/// The magnitude of `x`.
pub open spec fn magnitude(x: int) -> int {
    if x < 0 {
        -x
    } else {
        x
    }
}

/// `widest` after `written`, named by `site` on `line`, is recorded: kept
/// when it is strictly wider than what was widest.
pub open spec fn note_spec(widest: Option<WidestId>, site: IdSite, written: i64, line: usize) -> Option<WidestId> {
    let wider = match widest {
        Some(w) => magnitude(written as int) > magnitude(w.written as int),
        None => true,
    };
    if wider {
        Some(WidestId { site, written, line })
    } else {
        widest
    }
}

/// Record `written` — a variable id or a literal, as the file spells it — as
/// named by a `site` construct on line `line`.
fn note(widest: &mut Option<WidestId>, site: IdSite, written: i64, line: usize)
    ensures
        *final(widest) == note_spec(*old(widest), site, written, line),
{
    let wider = match *widest {
        Some(w) => {
            let a: u64 = if written < 0 {
                if written == i64::MIN {
                    9223372036854775808
                } else {
                    (-written) as u64
                }
            } else {
                written as u64
            };
            let b: u64 = if w.written < 0 {
                if w.written == i64::MIN {
                    9223372036854775808
                } else {
                    (-w.written) as u64
                }
            } else {
                w.written as u64
            };
            a > b
        },
        None => true,
    };
    if wider {
        *widest = Some(WidestId { site, written, line });
    }
}

// ---------------------------------------------------------------------------
// Messages
// ---------------------------------------------------------------------------

/// `line N: `, the start of every message about one line.
pub open spec fn at_line(n: int) -> Seq<u8> {
    ascii_of("line "@) + decimal(n as nat) + ascii_of(": "@)
}

/// The message refusing an id wider than the declared count.
pub open spec fn exceeds_text(w: WidestId, num_vars: u32) -> Seq<u8> {
    at_line(w.line as int) + site_words(w.site) + ascii_of(" "@) + signed_decimal(w.written as int)
        + ascii_of(" exceeds the declared variable count "@) + decimal(num_vars as nat)
}

/// Starts a message about line `n`.
fn line_message(n: usize) -> (r: Vec<u8>)
    ensures
        r@ == at_line(n as int),
        is_ascii_bytes(r@),
{
    let mut out: Vec<u8> = Vec::new();
    proof {
        reveal_strlit("line ");
        reveal_strlit(": ");
    }
    push_literal(&mut out, "line ");
    push_decimal(&mut out, n as u64);
    push_literal(&mut out, ": ");
    out
}

// ---------------------------------------------------------------------------
// Clause normalization
// ---------------------------------------------------------------------------

/// The literals of a clause as the signed integers DIMACS writes.
pub open spec fn lit_ints(lits: Seq<Literal>) -> Seq<int> {
    lits.map_values(|l: Literal| literal_dimacs(l))
}

/// Some variable occurs in both polarities: a clause every assignment
/// satisfies.
pub open spec fn tautology(cur: Seq<int>) -> bool {
    exists|i: int, j: int| 0 <= i < cur.len() && 0 <= j < cur.len() && #[trigger] cur[i] == -#[trigger] cur[j]
}

/// The literals strictly ascend by variable.
pub open spec fn by_var(s: Seq<int>) -> bool {
    forall|i: int, j: int| 0 <= i < j < s.len() ==> magnitude(#[trigger] s[i]) < magnitude(#[trigger] s[j])
}

/// `s` is the normal form of the clause `cur`: its literals sorted by
/// variable, each once.
pub open spec fn normal_form(s: Seq<int>, cur: Seq<int>) -> bool {
    by_var(s) && forall|x: int| #[trigger] s.contains(x) <==> cur.contains(x)
}

/// The normal form of a clause that is no tautology.
pub open spec fn normalized(cur: Seq<int>) -> Seq<int> {
    choose|s: Seq<int>| normal_form(s, cur)
}

/// Two sequences sorted by variable with the same elements are one.
pub(crate) proof fn lemma_normal_form_unique(s: Seq<int>, t: Seq<int>)
    requires
        by_var(s),
        by_var(t),
        forall|x: int| #![trigger s.contains(x)] #![trigger t.contains(x)] s.contains(x) <==> t.contains(x),
    ensures
        s == t,
    decreases s.len(),
{
    if s.len() == 0 {
        if t.len() > 0 {
            assert(t.contains(t[0]));
        }
        assert(s =~= t);
    } else {
        assert(s.contains(s[0]));
        assert(t.contains(s[0]));
        let k = choose|k: int| 0 <= k < t.len() && t[k] == s[0];
        assert(t.contains(t[0]));
        let m = choose|m: int| 0 <= m < s.len() && s[m] == t[0];
        if k > 0 {
            assert(magnitude(t[0]) < magnitude(t[k]));
            if m > 0 {
                assert(magnitude(s[0]) < magnitude(s[m]));
            }
        }
        assert(k == 0);
        let s2 = s.drop_first();
        let t2 = t.drop_first();
        assert forall|x: int| #![trigger s2.contains(x)] #![trigger t2.contains(x)] s2.contains(x) <==> t2.contains(x) by {
            if s2.contains(x) {
                let i = choose|i: int| 0 <= i < s2.len() && s2[i] == x;
                assert(s[i + 1] == x);
                assert(magnitude(s[0]) < magnitude(s[i + 1]));
                assert(t.contains(x));
                let j = choose|j: int| 0 <= j < t.len() && t[j] == x;
                assert(j != 0);
                assert(t2[j - 1] == x);
            }
            if t2.contains(x) {
                let i = choose|i: int| 0 <= i < t2.len() && t2[i] == x;
                assert(t[i + 1] == x);
                assert(magnitude(t[0]) < magnitude(t[i + 1]));
                assert(s.contains(x));
                let j = choose|j: int| 0 <= j < s.len() && s[j] == x;
                assert(j != 0);
                assert(s2[j - 1] == x);
            }
        }
        assert forall|i: int, j: int| 0 <= i < j < s2.len() implies magnitude(#[trigger] s2[i]) < magnitude(#[trigger] s2[j]) by {
            assert(s2[i] == s[i + 1] && s2[j] == s[j + 1]);
        }
        assert forall|i: int, j: int| 0 <= i < j < t2.len() implies magnitude(#[trigger] t2[i]) < magnitude(#[trigger] t2[j]) by {
            assert(t2[i] == t[i + 1] && t2[j] == t[j + 1]);
        }
        lemma_normal_form_unique(s2, t2);
        assert(t[0] == s[0]);
        assert(s.len() == t.len());
        assert forall|i: int| 0 <= i < s.len() implies s[i] == t[i] by {
            if i > 0 {
                assert(s[i] == s2[i - 1]);
                assert(t[i] == t2[i - 1]);
            }
        }
        assert(s =~= t);
    }
}

/// The literal a nonzero DIMACS integer names.
fn literal_of(v: i32) -> (r: Literal)
    requires
        v != 0,
    ensures
        literal_dimacs(r) == v,
{
    let mag: u32 = if v < 0 {
        if v == i32::MIN {
            2147483648
        } else {
            (-v) as u32
        }
    } else {
        v as u32
    };
    match VarId::new(mag) {
        Some(var) => Literal { var, positive: v > 0 },
        None => Literal { var: VarId::from_idx(0), positive: true },
    }
}

/// Closes a clause read so far: `None` when it is a tautology, which every
/// assignment satisfies, else its literals sorted by variable with exact
/// duplicates dropped.
fn close_clause(current: &Vec<Literal>) -> (r: Option<Vec<Literal>>)
    ensures
        match r {
            None => tautology(lit_ints(current@)),
            Some(c) => !tautology(lit_ints(current@)) && normal_form(lit_ints(c@), lit_ints(current@)),
        },
{
    let ghost cur = lit_ints(current@);
    let mut sorted: Vec<Literal> = Vec::new();
    let mut i: usize = 0;
    while i < current.len()
        invariant
            i <= current@.len(),
            cur == lit_ints(current@),
            by_var(lit_ints(sorted@)),
            forall|x: int| #[trigger] lit_ints(sorted@).contains(x) <==> cur.take(i as int).contains(x),
            !tautology(cur.take(i as int)),
        decreases current@.len() - i,
    {
        let l = current[i];
        let n = l.var.get();
        let ghost s = lit_ints(sorted@);
        let ghost x = literal_dimacs(l);
        proof {
            assert(cur[i as int] == x);
            assert(cur.take(i + 1) == cur.take(i as int).push(x));
            assert(magnitude(x) == n);
        }
        let mut p: usize = 0;
        while p < sorted.len() && sorted[p].var.get() < n
            invariant
                p <= sorted@.len(),
                s == lit_ints(sorted@),
                forall|k: int| 0 <= k < p ==> magnitude(#[trigger] s[k]) < n,
            decreases sorted@.len() - p,
        {
            proof {
                assert(s[p as int] == literal_dimacs(sorted@[p as int]));
            }
            p = p + 1;
        }
        if p < sorted.len() && sorted[p].var.get() == n {
            proof {
                assert(s[p as int] == literal_dimacs(sorted@[p as int]));
                assert(magnitude(s[p as int]) == n);
            }
            if sorted[p].positive == l.positive {
                proof {
                    assert(s[p as int] == x);
                    assert forall|y: int| #[trigger] s.contains(y) <==> cur.take(i + 1).contains(y) by {
                        if y == x {
                            assert(cur.take(i + 1)[i as int] == x);
                        }
                        if cur.take(i + 1).contains(y) && y != x {
                            let k = choose|k: int| 0 <= k < i + 1 && #[trigger] cur.take(i + 1)[k] == y;
                            assert(cur.take(i as int)[k] == y);
                        }
                    }
                    if tautology(cur.take(i + 1)) {
                        let (a, b) = choose|a: int, b: int| 0 <= a < i + 1 && 0 <= b < i + 1 && #[trigger] cur.take(i + 1)[a] == -#[trigger] cur.take(i + 1)[b];
                        let ta = cur.take(i + 1)[a];
                        let tb = cur.take(i + 1)[b];
                        assert(s.contains(ta));
                        assert(s.contains(tb));
                        let ka = choose|k: int| 0 <= k < s.len() && s[k] == ta;
                        let kb = choose|k: int| 0 <= k < s.len() && s[k] == tb;
                        assert(ka != kb);
                        if ka < kb {
                            assert(magnitude(s[ka]) < magnitude(s[kb]));
                        } else {
                            assert(magnitude(s[kb]) < magnitude(s[ka]));
                        }
                    }
                }
            } else {
                proof {
                    assert(s[p as int] == -x);
                    assert(s.contains(-x));
                    let k = choose|k: int| 0 <= k < i && #[trigger] cur.take(i as int)[k] == -x;
                    assert(cur[k] == -x);
                    assert(cur[i as int] == x);
                    assert(tautology(cur));
                }
                return None;
            }
        } else {
            let ghost before = sorted@;
            sorted.insert(p, l);
            proof {
                assert(sorted@ == before.insert(p as int, l));
                let s2 = lit_ints(sorted@);
                assert(s2 == s.insert(p as int, x));
                assert(p < s.len() ==> n < magnitude(s[p as int])) by {
                    if p < s.len() {
                        assert(s[p as int] == literal_dimacs(sorted@[p as int + 1]));
                        assert(s[p as int] == literal_dimacs(before[p as int]));
                    }
                }
                assert forall|a: int, b: int| 0 <= a < b < s2.len() implies magnitude(#[trigger] s2[a]) < magnitude(#[trigger] s2[b]) by {
                    if b < p {
                    } else if a > p {
                        assert(s2[a] == s[a - 1] && s2[b] == s[b - 1]);
                    } else if a == p {
                        assert(s2[b] == s[b - 1]);
                        if b - 1 > p {
                            assert(magnitude(s[p as int]) < magnitude(s[b - 1]));
                        }
                    } else if b == p {
                    } else {
                        assert(s2[b] == s[b - 1]);
                        assert(magnitude(s[a]) < n);
                    }
                }
                assert forall|y: int| #[trigger] s2.contains(y) <==> cur.take(i + 1).contains(y) by {
                    if s2.contains(y) {
                        let k = choose|k: int| 0 <= k < s2.len() && s2[k] == y;
                        if k == p {
                            assert(cur.take(i + 1)[i as int] == y);
                        } else {
                            let k0 = if k < p { k } else { k - 1 };
                            assert(s[k0] == y);
                            assert(s.contains(y));
                            assert(cur.take(i as int).contains(y));
                            let j = choose|j: int| 0 <= j < i && #[trigger] cur.take(i as int)[j] == y;
                            assert(cur.take(i + 1)[j] == y);
                        }
                    }
                    if cur.take(i + 1).contains(y) {
                        let k = choose|k: int| 0 <= k < i + 1 && #[trigger] cur.take(i + 1)[k] == y;
                        if k == i {
                            assert(s2[p as int] == y);
                        } else {
                            assert(cur.take(i as int)[k] == y);
                            assert(s.contains(y));
                            let q = choose|q: int| 0 <= q < s.len() && s[q] == y;
                            if q < p {
                                assert(s2[q] == y);
                            } else {
                                assert(s2[q + 1] == y);
                            }
                        }
                    }
                }
                if tautology(cur.take(i + 1)) {
                    let (a, b) = choose|a: int, b: int| 0 <= a < i + 1 && 0 <= b < i + 1 && #[trigger] cur.take(i + 1)[a] == -#[trigger] cur.take(i + 1)[b];
                    let ta = cur.take(i + 1)[a];
                    let tb = cur.take(i + 1)[b];
                    if a == i || b == i {
                        let other = if a == i { tb } else { ta };
                        assert(magnitude(other) == n);
                        if a == i && b == i {
                            assert(x == -x);
                            assert(x == 0);
                        } else {
                            let o = if a == i { b } else { a };
                            assert(cur.take(i as int)[o] == other);
                            assert(s.contains(other));
                            let q = choose|q: int| 0 <= q < s.len() && s[q] == other;
                            if q < p {
                            } else if q > p {
                                assert(magnitude(s[p as int]) <= magnitude(s[q]));
                            }
                        }
                    } else {
                        assert(cur.take(i as int)[a] == ta);
                        assert(cur.take(i as int)[b] == tb);
                        assert(tautology(cur.take(i as int)));
                    }
                }
            }
        }
        i = i + 1;
    }
    proof {
        assert(cur.take(current@.len() as int) == cur);
    }
    Some(sorted)
}

// ---------------------------------------------------------------------------
// The reader, as a function of the file's bytes
// ---------------------------------------------------------------------------

/// What the reader has gathered after some lines.
pub struct ReadState {
    /// The variable count the last `p cnf` line declared, 0 before one.
    pub num_vars: u32,
    /// The clauses closed so far, as signed DIMACS integers.
    pub clauses: Seq<Seq<int>>,
    /// The literals of the clause still open.
    pub current: Seq<int>,
    /// The track the last `c t` line named.
    pub track: Option<Mode>,
    /// The show variables as written, in order.
    pub show: Seq<int>,
    /// Whether a `c p show` line was seen.
    pub saw_show: bool,
    /// The `c p weight` lines, literal and weight, in order.
    pub weights: Seq<(i32, WeightParts)>,
    /// The widest id named so far.
    pub widest: Option<WidestId>,
    /// How many lines were read.
    pub line: int,
}

/// The state before the first line.
pub open spec fn initial_state() -> ReadState {
    ReadState {
        num_vars: 0,
        clauses: Seq::empty(),
        current: Seq::empty(),
        track: None,
        show: Seq::empty(),
        saw_show: false,
        weights: Seq::empty(),
        widest: None,
        line: 0,
    }
}

/// The open clause closed: dropped when a tautology, else added in normal
/// form.
pub open spec fn close_spec(st: ReadState) -> ReadState {
    if tautology(st.current) {
        ReadState { current: Seq::empty(), ..st }
    } else {
        ReadState { clauses: st.clauses.push(normalized(st.current)), current: Seq::empty(), ..st }
    }
}

/// The competition track a `c t` token names; `compile` names none.
pub open spec fn track_token(t: Seq<u8>) -> Option<Mode> {
    if t == ascii_of("mc"@) {
        Some(Mode::Mc)
    } else if t == ascii_of("wmc"@) {
        Some(Mode::Wmc)
    } else if t == ascii_of("pmc"@) {
        Some(Mode::Pmc)
    } else if t == ascii_of("pwmc"@) {
        Some(Mode::Pwmc)
    } else {
        None
    }
}

/// The variables of a `c p show` line from token `k` on: each read as an
/// `i64`, a `0` ending the list, a negative one refused.
pub open spec fn show_fold(st: ReadState, toks: Seq<Seq<u8>>, k: int, n: int) -> Result<(ReadState, bool), Seq<u8>>
    decreases toks.len() - k,
{
    if k < 0 || k >= toks.len() {
        Ok((st, false))
    } else {
        match int_in(toks[k], true, i64::MIN as int, i64::MAX as int) {
            None => Err(at_line(n) + ascii_of("invalid show var: "@) + quoted(toks[k])),
            Some(v) => if v == 0 {
                Ok((st, false))
            } else if v < 0 {
                Err(at_line(n) + ascii_of("negative show var: "@) + signed_decimal(v))
            } else {
                show_fold(
                    ReadState {
                        widest: note_spec(st.widest, IdSite::ShowVar, v as i64, n as usize),
                        show: st.show.push(v),
                        ..st
                    },
                    toks,
                    k + 1,
                    n,
                )
            },
        }
    }
}

/// A comment line: a `c t`, `c p show` or `c p weight` meta-comment, or
/// anything else, which is skipped.
pub open spec fn comment_step(st: ReadState, toks: Seq<Seq<u8>>, n: int) -> Result<(ReadState, bool), Seq<u8>> {
    if toks.len() == 3 && toks[0] == ascii_of("c"@) && toks[1] == ascii_of("t"@) {
        match track_token(toks[2]) {
            None => Err(at_line(n) + ascii_of("unknown problem type: "@) + shown(toks[2])),
            Some(m) => Ok((ReadState { track: Some(m), ..st }, false)),
        }
    } else if toks.len() >= 3 && toks[0] == ascii_of("c"@) && toks[1] == ascii_of("p"@) && toks[2]
        == ascii_of("show"@) {
        show_fold(ReadState { saw_show: true, ..st }, toks, 3, n)
    } else if toks.len() >= 5 && toks[0] == ascii_of("c"@) && toks[1] == ascii_of("p"@) && toks[2]
        == ascii_of("weight"@) {
        match int_in(toks[3], true, i32::MIN as int, i32::MAX as int) {
            None => Err(at_line(n) + ascii_of("invalid weight literal: "@) + quoted(toks[3])),
            Some(l) => if l == 0 {
                Err(at_line(n) + ascii_of("weight on literal 0"@))
            } else {
                match weight_spec(toks[4]) {
                    Err(f) => Err(at_line(n) + weight_fault_text(f, toks[4])),
                    Ok(w) => Ok(
                        (
                            ReadState {
                                widest: note_spec(st.widest, IdSite::WeightLiteral, l as i64, n as usize),
                                weights: st.weights.push((l as i32, w)),
                                ..st
                            },
                            false,
                        ),
                    ),
                }
            },
        }
    } else {
        Ok((st, false))
    }
}

/// A `p cnf <vars> <clauses>` line: the variable count is read as a `u32`, the
/// clause count as a `usize`, and only the first is kept.
pub open spec fn problem_step(st: ReadState, toks: Seq<Seq<u8>>, line: Seq<u8>, n: int) -> Result<(ReadState, bool), Seq<u8>> {
    if toks.len() < 4 || toks[1] != ascii_of("cnf"@) {
        Err(at_line(n) + ascii_of("invalid problem line: "@) + shown(super::weights::trim_text(line)))
    } else {
        match int_in(toks[2], false, 0, u32::MAX as int) {
            None => Err(at_line(n) + ascii_of("invalid variable count: "@) + shown(toks[2])),
            Some(nv) => match int_in(toks[3], false, 0, usize::MAX as int) {
                None => Err(at_line(n) + ascii_of("invalid clause count: "@) + shown(toks[3])),
                Some(_) => Ok((ReadState { num_vars: nv as u32, ..st }, false)),
            },
        }
    }
}

/// Clause data from token `k` on: each token an `i32`, a `0` closing the open
/// clause, any other value a literal of it.
pub open spec fn clause_fold(st: ReadState, toks: Seq<Seq<u8>>, k: int, n: int) -> Result<(ReadState, bool), Seq<u8>>
    decreases toks.len() - k,
{
    if k < 0 || k >= toks.len() {
        Ok((st, false))
    } else {
        match int_in(toks[k], true, i32::MIN as int, i32::MAX as int) {
            None => Err(at_line(n) + ascii_of("invalid token in clause data: "@) + quoted(toks[k])),
            Some(v) => if v == 0 {
                clause_fold(close_spec(st), toks, k + 1, n)
            } else {
                clause_fold(
                    ReadState {
                        widest: note_spec(st.widest, IdSite::ClauseLiteral, v as i64, n as usize),
                        current: st.current.push(v),
                        ..st
                    },
                    toks,
                    k + 1,
                    n,
                )
            },
        }
    }
}

/// One line of the file, by its first non-blank byte: `c` a comment, `%` the
/// end, `w` a weight line of another format (skipped), `p` the problem line;
/// else clause data, unless its first token holds a `.`, which marks a line
/// of bare weights (skipped). Whether reading stops here comes back beside
/// the state.
pub open spec fn line_step(st: ReadState, line: Seq<u8>) -> Result<(ReadState, bool), Seq<u8>> {
    let n = st.line + 1;
    let st1 = ReadState { line: n, ..st };
    let f = folded(line);
    let toks = tokens(f);
    if !valid_utf8(line) {
        Err(ascii_of("stream did not contain valid UTF-8"@))
    } else if toks.len() == 0 {
        Ok((st1, false))
    } else {
        let first = f[skip_space(f, 0)];
        if first == 99 {
            comment_step(st1, toks, n)
        } else if first == 37 {
            Ok((st1, true))
        } else if first == 119 {
            Ok((st1, false))
        } else if first == 112 {
            problem_step(st1, toks, line, n)
        } else if toks[0].contains(46) {
            Ok((st1, false))
        } else {
            clause_fold(st1, toks, 0, n)
        }
    }
}

/// The first line feed at or after `i` is no earlier than `i`, and no later
/// than the end.
pub proof fn lemma_find_from(s: Seq<u8>, i: int, c: u8)
    requires
        0 <= i,
    ensures
        i <= super::weights::find_from(s, i, c),
        i <= s.len() ==> super::weights::find_from(s, i, c) <= s.len(),
    decreases s.len() - i,
{
    if i < s.len() && s[i] != c {
        lemma_find_from(s, i + 1, c);
    }
}

/// The lines of `text` from byte `pos` on, read into `st`: each line ends at a
/// line feed or the end of the text, and no empty line follows a final line
/// feed.
pub open spec fn read_from(text: Seq<u8>, pos: int, st: ReadState) -> Result<ReadState, Seq<u8>>
    decreases text.len() - pos,
{
    if pos < 0 || pos >= text.len() {
        Ok(st)
    } else {
        let e = super::weights::find_from(text, pos, 10);
        proof {
            lemma_find_from(text, pos, 10);
        }
        match line_step(st, text.subrange(pos, e)) {
            Err(m) => Err(m),
            Ok((st2, stop)) => if stop || e >= text.len() {
                Ok(st2)
            } else {
                read_from(text, e + 1, st2)
            },
        }
    }
}

/// `b` holds the show variables of `a` first, in the same order, and has
/// seen a show line if `a` has.
pub open spec fn show_extends(a: ReadState, b: ReadState) -> bool {
    &&& a.show.len() <= b.show.len()
    &&& b.show.subrange(0, a.show.len() as int) == a.show
    &&& a.saw_show ==> b.saw_show
}

proof fn lemma_show_extends_trans(a: ReadState, b: ReadState, c: ReadState)
    requires
        show_extends(a, b),
        show_extends(b, c),
    ensures
        show_extends(a, c),
{
    assert forall|i: int| 0 <= i < a.show.len() implies c.show.subrange(0, a.show.len() as int)[i] == a.show[i] by {
        assert(c.show.subrange(0, b.show.len() as int)[i] == b.show[i]);
        assert(b.show.subrange(0, a.show.len() as int)[i] == a.show[i]);
    }
    assert(c.show.subrange(0, a.show.len() as int) =~= a.show);
}

proof fn lemma_show_extends_same(a: ReadState, b: ReadState)
    requires
        b.show == a.show,
        a.saw_show ==> b.saw_show,
    ensures
        show_extends(a, b),
{
    assert(b.show.subrange(0, a.show.len() as int) =~= a.show);
}

/// A show line's variables are added after those already read.
proof fn lemma_show_fold_extends(st: ReadState, toks: Seq<Seq<u8>>, k: int, n: int)
    ensures
        show_fold(st, toks, k, n) matches Ok((st2, _)) ==> show_extends(st, st2),
    decreases toks.len() - k,
{
    lemma_show_extends_same(st, st);
    if 0 <= k < toks.len() {
        match int_in(toks[k], true, i64::MIN as int, i64::MAX as int) {
            Some(v) => if v > 0 {
                let st1 = ReadState {
                    widest: note_spec(st.widest, IdSite::ShowVar, v as i64, n as usize),
                    show: st.show.push(v),
                    ..st
                };
                assert(st1.show.subrange(0, st.show.len() as int) =~= st.show);
                lemma_show_fold_extends(st1, toks, k + 1, n);
                if show_fold(st1, toks, k + 1, n) is Ok {
                    lemma_show_extends_trans(st, st1, show_fold(st1, toks, k + 1, n)->Ok_0.0);
                }
            },
            None => {},
        }
    }
}

/// Clause data leaves the show variables alone.
proof fn lemma_clause_fold_keeps_show(st: ReadState, toks: Seq<Seq<u8>>, k: int, n: int)
    ensures
        clause_fold(st, toks, k, n) matches Ok((st2, _)) ==> st2.show == st.show && st2.saw_show == st.saw_show,
    decreases toks.len() - k,
{
    if 0 <= k < toks.len() {
        match int_in(toks[k], true, i32::MIN as int, i32::MAX as int) {
            Some(v) => if v == 0 {
                lemma_clause_fold_keeps_show(close_spec(st), toks, k + 1, n);
            } else {
                lemma_clause_fold_keeps_show(
                    ReadState {
                        widest: note_spec(st.widest, IdSite::ClauseLiteral, v as i64, n as usize),
                        current: st.current.push(v),
                        ..st
                    },
                    toks,
                    k + 1,
                    n,
                );
            },
            None => {},
        }
    }
}

/// Reading a line never drops a show variable: every `c p show` line adds
/// its variables after those of the lines before it, and any other line
/// leaves them as they are. The show set of a file is the union of all its
/// show lines.
pub proof fn lemma_line_keeps_show(st: ReadState, line: Seq<u8>)
    ensures
        line_step(st, line) matches Ok((st2, _)) ==> show_extends(st, st2),
{
    let n = st.line + 1;
    let st1 = ReadState { line: n, ..st };
    let f = folded(line);
    let toks = tokens(f);
    lemma_show_extends_same(st, st1);
    if valid_utf8(line) && toks.len() > 0 {
        let first = f[skip_space(f, 0)];
        if first == 99 {
            if toks.len() >= 3 && toks[0] == ascii_of("c"@) && toks[1] == ascii_of("p"@) && toks[2] == ascii_of("show"@)
                && !(toks.len() == 3 && toks[0] == ascii_of("c"@) && toks[1] == ascii_of("t"@)) {
                let st0 = ReadState { saw_show: true, ..st1 };
                lemma_show_extends_same(st, st0);
                lemma_show_fold_extends(st0, toks, 3, n);
                if show_fold(st0, toks, 3, n) is Ok {
                    lemma_show_extends_trans(st, st0, show_fold(st0, toks, 3, n)->Ok_0.0);
                }
            }
            if comment_step(st1, toks, n) is Ok {
                let st2 = comment_step(st1, toks, n)->Ok_0.0;
                if !(toks.len() >= 3 && toks[0] == ascii_of("c"@) && toks[1] == ascii_of("p"@) && toks[2] == ascii_of("show"@)
                    && !(toks.len() == 3 && toks[0] == ascii_of("c"@) && toks[1] == ascii_of("t"@))) {
                    lemma_show_extends_same(st, st2);
                }
            }
        } else if first != 37 && first != 119 && first != 112 && !toks[0].contains(46) {
            lemma_clause_fold_keeps_show(st1, toks, 0, n);
            if clause_fold(st1, toks, 0, n) is Ok {
                lemma_show_extends_same(st, clause_fold(st1, toks, 0, n)->Ok_0.0);
            }
        } else if first == 112 {
            if problem_step(st1, toks, line, n) is Ok {
                lemma_show_extends_same(st, problem_step(st1, toks, line, n)->Ok_0.0);
            }
        }
    }
}

/// Reading on from any point never drops a show variable already read.
pub proof fn lemma_reading_keeps_show(text: Seq<u8>, pos: int, st: ReadState)
    ensures
        read_from(text, pos, st) matches Ok(fin) ==> show_extends(st, fin),
    decreases text.len() - pos,
{
    lemma_show_extends_same(st, st);
    if 0 <= pos < text.len() {
        let e = super::weights::find_from(text, pos, 10);
        lemma_find_from(text, pos, 10);
        let line = text.subrange(pos, e);
        lemma_line_keeps_show(st, line);
        if line_step(st, line) is Ok {
            let st2 = line_step(st, line)->Ok_0.0;
            let stop = line_step(st, line)->Ok_0.1;
            if !(stop || e >= text.len()) {
                lemma_reading_keeps_show(text, e + 1, st2);
                if read_from(text, e + 1, st2) is Ok {
                    lemma_show_extends_trans(st, st2, read_from(text, e + 1, st2)->Ok_0);
                }
            }
        }
    }
}

/// After the last line: a clause whose `0` the file omits is closed; clauses
/// without a `p` line are refused; and the widest id must fit the declared
/// count.
pub open spec fn finish_spec(st: ReadState) -> Result<ReadState, Seq<u8>> {
    let st1 = if st.current.len() > 0 {
        close_spec(st)
    } else {
        st
    };
    if st1.num_vars == 0 && st1.clauses.len() > 0 {
        Err(ascii_of("Missing problem line"@))
    } else {
        match st1.widest {
            Some(w) => if magnitude(w.written as int) > st1.num_vars {
                Err(exceeds_text(w, st1.num_vars))
            } else {
                Ok(st1)
            },
            None => Ok(st1),
        }
    }
}

/// What reading `text` gives: the state the reader ends in, or the message
/// refusing the file.
pub open spec fn dimacs_spec(text: Seq<u8>) -> Result<ReadState, Seq<u8>> {
    match read_from(text, 0, initial_state()) {
        Err(m) => Err(m),
        Ok(st) => finish_spec(st),
    }
}

// ---------------------------------------------------------------------------
// The reader, executed
// ---------------------------------------------------------------------------

/// The clauses as signed DIMACS integers.
pub open spec fn clause_ints(cs: Seq<Clause>) -> Seq<Seq<int>> {
    cs.map_values(|c: Clause| lit_ints(c.literals@))
}

/// The reader's working state.
struct Reader {
    num_vars: u32,
    clauses: Vec<Clause>,
    current: Vec<Literal>,
    track: Option<Mode>,
    show: Vec<i64>,
    saw_show: bool,
    weights: Vec<(i32, ExactWeight)>,
    widest: Option<WidestId>,
    line: usize,
}

impl Reader {
    /// The state this reader holds.
    spec fn state(&self) -> ReadState {
        ReadState {
            num_vars: self.num_vars,
            clauses: clause_ints(self.clauses@),
            current: lit_ints(self.current@),
            track: self.track,
            show: self.show@.map_values(|v: i64| v as int),
            saw_show: self.saw_show,
            weights: rows_view(self.weights@),
            widest: self.widest,
            line: self.line as int,
        }
    }

    /// Every show variable is positive and no wider than the widest id, and
    /// every weight literal is nonzero.
    spec fn tidy(&self) -> bool {
        self.show_tidy() && self.weights_tidy()
    }

    spec fn show_tidy(&self) -> bool {
        match self.widest {
            Some(w) => forall|i: int|
                0 <= i < self.show@.len() ==> 0 < #[trigger] self.show@[i] && self.show@[i] <= magnitude(
                    w.written as int,
                ),
            None => self.show@.len() == 0,
        }
    }

    spec fn weights_tidy(&self) -> bool {
        forall|i: int| 0 <= i < self.weights@.len() ==> (#[trigger] self.weights@[i]).0 != 0
    }
}

/// The open clause of `rd` closed.
fn close_open(rd: &mut Reader)
    requires
        old(rd).tidy(),
    ensures
        final(rd).state() == close_spec(old(rd).state()),
        final(rd).tidy(),
{
    let ghost cur = lit_ints(rd.current@);
    match close_clause(&rd.current) {
        None => {},
        Some(c) => {
            proof {
                assert(normal_form(lit_ints(c@), cur));
                assert(normal_form(normalized(cur), cur));
                lemma_normal_form_unique(lit_ints(c@), normalized(cur));
            }
            let ghost before = rd.clauses@;
            rd.clauses.push(Clause::new(c));
            proof {
                assert(clause_ints(rd.clauses@) == clause_ints(before).push(normalized(cur)));
            }
        },
    }
    rd.current = Vec::new();
    proof {
        assert(lit_ints(rd.current@) == Seq::<int>::empty());
        assert forall|i: int| 0 <= i < rd.weights@.len() implies (#[trigger] rd.weights@[i]).0 != 0 by {
            assert(old(rd).weights@[i] == rd.weights@[i]);
        }
    }
}

/// Whether two byte strings are equal.
fn eq_bytes(a: &[u8], b: &[u8]) -> (r: bool)
    ensures
        r == (a@ == b@),
{
    if a.len() != b.len() {
        return false;
    }
    let mut i: usize = 0;
    while i < a.len()
        invariant
            i <= a@.len(),
            a@.len() == b@.len(),
            forall|k: int| 0 <= k < i ==> a@[k] == b@[k],
        decreases a@.len() - i,
    {
        if a[i] != b[i] {
            return false;
        }
        i = i + 1;
    }
    proof {
        assert(a@ =~= b@);
    }
    true
}

/// Whether token `t` spells the ASCII word `w`.
fn is_word(t: &[u8], w: &str) -> (r: bool)
    requires
        w.is_ascii(),
    ensures
        r == (t@ == ascii_of(w@)),
{
    let b = crate::text::literal_bytes(w);
    eq_bytes(t, b.as_slice())
}

/// Token `k` of `line`, given its spans.
fn token_at<'a>(line: &'a [u8], spans: &Vec<(usize, usize)>, k: usize) -> (r: &'a [u8])
    requires
        spans_of(line@, spans@),
        k < spans@.len(),
    ensures
        r@ == tokens(line@)[k as int],
{
    let (a, b) = spans[k];
    proof {
        assert(spans@[k as int].0 <= spans@[k as int].1 <= line@.len());
    }
    &line[a..b]
}

/// The facts `token_spans` gives about a line's token spans.
spec fn spans_of(line: Seq<u8>, spans: Seq<(usize, usize)>) -> bool {
    &&& spans.len() == tokens(line).len()
    &&& forall|j: int|
        0 <= j < spans.len() ==> #[trigger] spans[j].0 <= spans[j].1 <= line.len() && line.subrange(
            spans[j].0 as int,
            spans[j].1 as int,
        ) == tokens(line)[j]
}

/// The magnitude of an `i64`, as a `u64`.
fn magnitude_of(x: i64) -> (r: u64)
    ensures
        r == magnitude(x as int),
{
    if x < 0 {
        if x == i64::MIN {
            9223372036854775808
        } else {
            (-x) as u64
        }
    } else {
        x as u64
    }
}

/// The variables of a `c p show` line, from its fourth token on.
fn read_show(rd: &mut Reader, line: &[u8], spans: &Vec<(usize, usize)>, n: usize) -> (r: Result<(), Vec<u8>>)
    requires
        spans_of(line@, spans@),
        old(rd).tidy(),
    ensures
        match show_fold(old(rd).state(), tokens(line@), 3, n as int) {
            Ok((st, stop)) => r is Ok && !stop && final(rd).state() == st && final(rd).tidy(),
            Err(m) => r is Err && r->Err_0@ == m && is_ascii_bytes(m),
        },
        r is Ok ==> final(rd).line == old(rd).line,
{
    let ghost toks = tokens(line@);
    let ghost st0 = rd.state();
    let mut k: usize = 3;
    while k < spans.len()
        invariant
            spans_of(line@, spans@),
            toks == tokens(line@),
            st0 == old(rd).state(),
            rd.line == old(rd).line,
            3 <= k,
            show_fold(st0, toks, 3, n as int) == show_fold(rd.state(), toks, k as int, n as int),
            rd.tidy(),
        decreases spans@.len() - k,
    {
        let t = token_at(line, spans, k);
        match read_i64(t) {
            None => {
                let mut m = line_message(n);
                proof {
                    reveal_strlit("invalid show var: ");
                }
                push_literal(&mut m, "invalid show var: ");
                push_quoted(&mut m, t);
                return Err(m);
            },
            Some(v) => {
                if v == 0 {
                    return Ok(());
                }
                if v < 0 {
                    let mut m = line_message(n);
                    proof {
                        reveal_strlit("negative show var: ");
                    }
                    push_literal(&mut m, "negative show var: ");
                    push_signed(&mut m, v);
                    return Err(m);
                }
                let ghost before = *rd;
                note(&mut rd.widest, IdSite::ShowVar, v, n);
                rd.show.push(v);
                proof {
                    assert(rd.show@.map_values(|x: i64| x as int) == before.show@.map_values(|x: i64| x as int).push(v as int));
                    assert(rd.state() == ReadState {
                        widest: note_spec(before.state().widest, IdSite::ShowVar, v, n),
                        show: before.state().show.push(v as int),
                        ..before.state()
                    });
                    match rd.widest {
                        Some(w) => {
                            assert(magnitude(w.written as int) >= v);
                            assert forall|i: int| 0 <= i < rd.show@.len() implies 0 < #[trigger] rd.show@[i]
                                && rd.show@[i] <= magnitude(w.written as int) by {
                                if i < before.show@.len() {
                                    assert(rd.show@[i] == before.show@[i]);
                                    match before.widest {
                                        Some(b) => {
                                            assert(before.show@[i] <= magnitude(b.written as int));
                                        },
                                        None => {},
                                    }
                                }
                            }
                        },
                        None => {},
                    }
                    assert(rd.weights@ == before.weights@);
                }
            },
        }
        k = k + 1;
    }
    Ok(())
}

/// The tokens of a clause data line.
fn read_clause_data(rd: &mut Reader, line: &[u8], spans: &Vec<(usize, usize)>, n: usize) -> (r: Result<(), Vec<u8>>)
    requires
        spans_of(line@, spans@),
        old(rd).tidy(),
    ensures
        match clause_fold(old(rd).state(), tokens(line@), 0, n as int) {
            Ok((st, stop)) => r is Ok && !stop && final(rd).state() == st && final(rd).tidy(),
            Err(m) => r is Err && r->Err_0@ == m && is_ascii_bytes(m),
        },
        r is Ok ==> final(rd).line == old(rd).line,
{
    let ghost toks = tokens(line@);
    let ghost st0 = rd.state();
    let mut k: usize = 0;
    while k < spans.len()
        invariant
            spans_of(line@, spans@),
            toks == tokens(line@),
            st0 == old(rd).state(),
            rd.line == old(rd).line,
            clause_fold(st0, toks, 0, n as int) == clause_fold(rd.state(), toks, k as int, n as int),
            rd.tidy(),
        decreases spans@.len() - k,
    {
        let t = token_at(line, spans, k);
        match read_i32(t) {
            None => {
                let mut m = line_message(n);
                proof {
                    reveal_strlit("invalid token in clause data: ");
                }
                push_literal(&mut m, "invalid token in clause data: ");
                push_quoted(&mut m, t);
                return Err(m);
            },
            Some(v) => {
                if v == 0 {
                    close_open(rd);
                } else {
                    let ghost before = *rd;
                    note(&mut rd.widest, IdSite::ClauseLiteral, v as i64, n);
                    let l = literal_of(v);
                    rd.current.push(l);
                    proof {
                        assert(lit_ints(rd.current@) == lit_ints(before.current@).push(v as int));
                        assert(rd.state() == ReadState {
                            widest: note_spec(before.state().widest, IdSite::ClauseLiteral, v as i64, n),
                            current: before.state().current.push(v as int),
                            ..before.state()
                        });
                        assert(rd.show@ == before.show@);
                        assert(rd.weights@ == before.weights@);
                        match rd.widest {
                            Some(w) => {
                                assert forall|i: int| 0 <= i < rd.show@.len() implies 0 < #[trigger] rd.show@[i]
                                    && rd.show@[i] <= magnitude(w.written as int) by {
                                    match before.widest {
                                        Some(b) => {
                                            assert(before.show@[i] <= magnitude(b.written as int));
                                        },
                                        None => {},
                                    }
                                }
                            },
                            None => {},
                        }
                    }
                }
            },
        }
        k = k + 1;
    }
    Ok(())
}

/// A comment line.
fn read_comment(rd: &mut Reader, line: &[u8], spans: &Vec<(usize, usize)>, n: usize) -> (r: Result<(), Vec<u8>>)
    requires
        spans_of(line@, spans@),
        old(rd).tidy(),
    ensures
        match comment_step(old(rd).state(), tokens(line@), n as int) {
            Ok((st, stop)) => r is Ok && !stop && final(rd).state() == st && final(rd).tidy(),
            Err(m) => r is Err && r->Err_0@ == m && is_ascii_bytes(m),
        },
        r is Ok ==> final(rd).line == old(rd).line,
{
    proof {
        reveal_strlit("c");
        reveal_strlit("t");
        reveal_strlit("p");
        reveal_strlit("show");
        reveal_strlit("weight");
        reveal_strlit("mc");
        reveal_strlit("wmc");
        reveal_strlit("pmc");
        reveal_strlit("pwmc");
    }
    let count = spans.len();
    if count == 3 && is_word(token_at(line, spans, 0), "c") && is_word(token_at(line, spans, 1), "t") {
        let ty = token_at(line, spans, 2);
        let m: Option<Mode> = if is_word(ty, "mc") {
            Some(Mode::Mc)
        } else if is_word(ty, "wmc") {
            Some(Mode::Wmc)
        } else if is_word(ty, "pmc") {
            Some(Mode::Pmc)
        } else if is_word(ty, "pwmc") {
            Some(Mode::Pwmc)
        } else {
            None
        };
        match m {
            Some(mode) => {
                rd.track = Some(mode);
                Ok(())
            },
            None => {
                let mut msg = line_message(n);
                proof {
                    reveal_strlit("unknown problem type: ");
                }
                push_literal(&mut msg, "unknown problem type: ");
                push_shown(&mut msg, ty);
                Err(msg)
            },
        }
    } else if count >= 3 && is_word(token_at(line, spans, 0), "c") && is_word(token_at(line, spans, 1), "p")
        && is_word(token_at(line, spans, 2), "show") {
        rd.saw_show = true;
        read_show(rd, line, spans, n)
    } else if count >= 5 && is_word(token_at(line, spans, 0), "c") && is_word(token_at(line, spans, 1), "p")
        && is_word(token_at(line, spans, 2), "weight") {
        let lit = token_at(line, spans, 3);
        match read_i32(lit) {
            None => {
                let mut msg = line_message(n);
                proof {
                    reveal_strlit("invalid weight literal: ");
                }
                push_literal(&mut msg, "invalid weight literal: ");
                push_quoted(&mut msg, lit);
                Err(msg)
            },
            Some(l) => {
                if l == 0 {
                    let mut msg = line_message(n);
                    proof {
                        reveal_strlit("weight on literal 0");
                    }
                    push_literal(&mut msg, "weight on literal 0");
                    return Err(msg);
                }
                let w = token_at(line, spans, 4);
                match parse_weight(w) {
                    Err(f) => {
                        let mut msg = line_message(n);
                        let d = f.describe(w);
                        crate::text::push_bytes(&mut msg, d.as_slice());
                        Err(msg)
                    },
                    Ok(value) => {
                        let ghost before = *rd;
                        note(&mut rd.widest, IdSite::WeightLiteral, l as i64, n);
                        rd.weights.push((l, value));
                        proof {
                            assert(rows_view(rd.weights@) == rows_view(before.weights@).push((l, parts_of(value))));
                            assert(rd.show@ == before.show@);
                            match rd.widest {
                                Some(wd) => {
                                    assert forall|i: int| 0 <= i < rd.show@.len() implies 0 < #[trigger] rd.show@[i]
                                        && rd.show@[i] <= magnitude(wd.written as int) by {
                                        match before.widest {
                                            Some(b) => {
                                                assert(before.show@[i] <= magnitude(b.written as int));
                                            },
                                            None => {},
                                        }
                                    }
                                },
                                None => {},
                            }
                            assert forall|i: int| 0 <= i < rd.weights@.len() implies (#[trigger] rd.weights@[i]).0 != 0 by {
                                if i < before.weights@.len() {
                                    assert(rd.weights@[i] == before.weights@[i]);
                                }
                            }
                        }
                        Ok(())
                    },
                }
            },
        }
    } else {
        Ok(())
    }
}

/// The message refusing line `n` as a problem line.
fn bad_problem_line(line: &[u8], n: usize) -> (r: Vec<u8>)
    ensures
        r@ == at_line(n as int) + ascii_of("invalid problem line: "@) + shown(super::weights::trim_text(line@)),
        is_ascii_bytes(r@),
{
    let mut msg = line_message(n);
    proof {
        reveal_strlit("invalid problem line: ");
    }
    push_literal(&mut msg, "invalid problem line: ");
    let (a, b) = super::weights::trim_text_span(line);
    push_shown(&mut msg, &line[a..b]);
    msg
}

/// A `p cnf` line.
fn read_problem(rd: &mut Reader, line: &[u8], f: &[u8], spans: &Vec<(usize, usize)>, n: usize) -> (r: Result<(), Vec<u8>>)
    requires
        spans_of(f@, spans@),
        old(rd).tidy(),
    ensures
        match problem_step(old(rd).state(), tokens(f@), line@, n as int) {
            Ok((st, stop)) => r is Ok && !stop && final(rd).state() == st && final(rd).tidy(),
            Err(m) => r is Err && r->Err_0@ == m && is_ascii_bytes(m),
        },
        r is Ok ==> final(rd).line == old(rd).line,
{
    proof {
        reveal_strlit("cnf");
    }
    if spans.len() < 4 || !is_word(token_at(f, spans, 1), "cnf") {
        return Err(bad_problem_line(line, n));
    }
    let vt = token_at(f, spans, 2);
    match read_u32(vt) {
        None => {
            let mut msg = line_message(n);
            proof {
                reveal_strlit("invalid variable count: ");
            }
            push_literal(&mut msg, "invalid variable count: ");
            push_shown(&mut msg, vt);
            Err(msg)
        },
        Some(nv) => {
            let ct = token_at(f, spans, 3);
            match read_usize(ct) {
                None => {
                    let mut msg = line_message(n);
                    proof {
                        reveal_strlit("invalid clause count: ");
                    }
                    push_literal(&mut msg, "invalid clause count: ");
                    push_shown(&mut msg, ct);
                    Err(msg)
                },
                Some(_) => {
                    rd.num_vars = nv;
                    Ok(())
                },
            }
        },
    }
}

/// A line with a token has a first non-blank byte.
proof fn lemma_first_byte(s: Seq<u8>)
    requires
        tokens(s).len() > 0,
    ensures
        skip_space(s, 0) < s.len(),
{
}

/// The first `c` at or after `i` lies inside `s` exactly when `s[i..]`
/// holds one.
proof fn lemma_find_contains(s: Seq<u8>, i: int, c: u8)
    requires
        0 <= i <= s.len(),
    ensures
        (super::weights::find_from(s, i, c) < s.len()) == (exists|k: int| i <= k < s.len() && s[k] == c),
    decreases s.len() - i,
{
    if i < s.len() && s[i] != c {
        lemma_find_contains(s, i + 1, c);
        if exists|k: int| i <= k < s.len() && s[k] == c {
            let k = choose|k: int| i <= k < s.len() && s[k] == c;
            assert(k != i);
        }
    }
}

/// One line of the file.
fn read_line(rd: &mut Reader, line: &[u8]) -> (r: Result<bool, Vec<u8>>)
    requires
        old(rd).tidy(),
        old(rd).line < usize::MAX,
    ensures
        match line_step(old(rd).state(), line@) {
            Ok((st, stop)) => r is Ok && r->Ok_0 == stop && final(rd).state() == st && final(rd).tidy(),
            Err(m) => r is Err && r->Err_0@ == m && is_ascii_bytes(m),
        },
        r is Ok ==> final(rd).line == old(rd).line + 1,
{
    if !is_utf8(line) {
        proof {
            reveal_strlit("stream did not contain valid UTF-8");
        }
        return Err(crate::text::literal_bytes("stream did not contain valid UTF-8"));
    }
    rd.line = rd.line + 1;
    let n = rd.line;
    proof {
        assert(rd.state() == ReadState { line: old(rd).state().line + 1, ..old(rd).state() });
    }
    let folded_line = fold_spaces(line);
    let f = folded_line.as_slice();
    let spans = token_spans(f);
    let ghost st1 = rd.state();
    if spans.len() == 0 {
        proof {
            assert(line_step(old(rd).state(), line@) == Ok::<(ReadState, bool), Seq<u8>>((st1, false)));
        }
        return Ok(false);
    }
    proof {
        lemma_first_byte(f@);
    }
    let a = skip_spaces(f, 0);
    let first = f[a];
    if first == 99 {
        match read_comment(rd, f, &spans, n) {
            Ok(()) => Ok(false),
            Err(m) => Err(m),
        }
    } else if first == 37 {
        proof {
            assert(line_step(old(rd).state(), line@) == Ok::<(ReadState, bool), Seq<u8>>((st1, true)));
        }
        Ok(true)
    } else if first == 119 {
        proof {
            assert(line_step(old(rd).state(), line@) == Ok::<(ReadState, bool), Seq<u8>>((st1, false)));
        }
        Ok(false)
    } else if first == 112 {
        match read_problem(rd, line, f, &spans, n) {
            Ok(()) => Ok(false),
            Err(m) => Err(m),
        }
    } else {
        let t0 = token_at(f, &spans, 0);
        let dot = super::weights::find_byte(t0, 0, 46);
        proof {
            lemma_find_contains(t0@, 0, 46);
            if tokens(f@)[0].contains(46) {
                let k = choose|k: int| 0 <= k < t0@.len() && t0@[k] == 46;
                assert(0 <= k < t0@.len() && t0@[k] == 46);
            }
        }
        if dot < t0.len() {
            Ok(false)
        } else {
            match read_clause_data(rd, f, &spans, n) {
                Ok(()) => Ok(false),
                Err(m) => Err(m),
            }
        }
    }
}

/// The clauses and variable count of a formula are those of a final state.
pub open spec fn formula_is(f: CnfFormula, st: ReadState) -> bool {
    f.num_vars == st.num_vars && clause_ints(f.clauses@) == st.clauses
}

/// The weight the last of `lines` to name `l` gives it.
pub open spec fn last_weight(lines: Seq<(i32, WeightParts)>, l: int) -> Option<WeightParts>
    decreases lines.len(),
{
    if lines.len() == 0 {
        None
    } else if lines.last().0 == l {
        Some(lines.last().1)
    } else {
        last_weight(lines.drop_last(), l)
    }
}

/// The show set holds exactly the show variables read.
pub open spec fn show_is(m: CnfMeta, st: ReadState) -> bool {
    match m.show_spec() {
        Some(set) => st.saw_show && forall|x: u32| #[trigger] set@.contains(x) <==> st.show.contains(x as int),
        None => !st.saw_show,
    }
}

/// The weight table holds, for each literal a weight line names, the last
/// weight read for it, and nothing for any other literal.
pub open spec fn weights_are(m: CnfMeta, st: ReadState) -> bool {
    match m.weights_spec() {
        Some(t) => {
            &&& st.weights.len() > 0
            &&& forall|l: int| #[trigger] t.declared(l) is Some ==> last_weight(st.weights, l) == Some(parts_of(t.declared(l)->Some_0))
            &&& forall|l: int| #[trigger] last_weight(st.weights, l) is Some ==> t.declared(l) is Some
        },
        None => st.weights.len() == 0,
    }
}

/// The metadata is that of a final state.
pub open spec fn meta_is(m: CnfMeta, st: ReadState) -> bool {
    m.track_spec() == st.track && show_is(m, st) && weights_are(m, st)
}

/// The message refusing an id wider than the declared count.
fn exceeds_message(w: WidestId, num_vars: u32) -> (r: Vec<u8>)
    ensures
        r@ == exceeds_text(w, num_vars),
        is_ascii_bytes(r@),
{
    let mut m = line_message(w.line);
    proof {
        reveal_strlit("clause literal");
        reveal_strlit("show var");
        reveal_strlit("weight literal");
        reveal_strlit(" ");
        reveal_strlit(" exceeds the declared variable count ");
    }
    match w.site {
        IdSite::ClauseLiteral => push_literal(&mut m, "clause literal"),
        IdSite::ShowVar => push_literal(&mut m, "show var"),
        IdSite::WeightLiteral => push_literal(&mut m, "weight literal"),
    }
    push_literal(&mut m, " ");
    push_signed(&mut m, w.written);
    push_literal(&mut m, " exceeds the declared variable count ");
    push_decimal(&mut m, num_vars as u64);
    m
}

/// The refusal of a file, as an `input` error carrying `m`.
fn refuse(m: Vec<u8>) -> (r: VitriError)
    requires
        is_ascii_bytes(m@),
    ensures
        r.spec_kind() == ErrorKind::Input,
        r.text() == ascii_chars(m@),
{
    let text = ascii_text(m);
    VitriError::input(text.as_str())
}

impl CnfFormula {
    /// Parse a DIMACS CNF file into the clause set and the [`CnfMeta`] its MCC
    /// `c t` / `c p show` / `c p weight` meta-comment lines declare.
    ///
    /// Recognized line types:
    /// - `c p show <v1> … 0` — the show set (accumulated across lines, sorted+deduped)
    /// - `c t {mc,wmc,pmc,pwmc}` — declared count type
    /// - `c p weight <lit> <w> 0` — literal weight (exact rational)
    /// - `c ...` — other comment (skipped)
    /// - `p cnf <vars> <clauses>` — problem header
    /// - `w ...` — PMC weight line (skipped)
    /// - `%` — SATLIB EOF marker (stops parsing)
    /// - Integer tokens separated by whitespace, `0`-terminated — clause data
    ///
    /// A `0` with no literals before it is the empty clause: constant false,
    /// so the formula is UNSAT and its count is 0. It is kept, not skipped. A
    /// final clause whose terminating `0` the file omits is accepted,
    /// normalized like any other: literals sorted by variable, duplicates
    /// dropped, and a clause with a variable in both polarities dropped whole.
    ///
    /// The header clause count is advisory (extra clauses are accepted). The
    /// header variable count is not: every id the file names — clause literal,
    /// show variable, weight literal — must satisfy `1 <= |id| <= vars`, and a
    /// file that names one above it is rejected, naming the id, the count and
    /// the line. Non-integer tokens in clause data are rejected.
    ///
    /// The text is read line by line as UTF-8: a line that is not well-formed
    /// UTF-8 refuses the file (`stream did not contain valid UTF-8`) when the
    /// reader reaches it, and whitespace is Unicode's, so a no-break space
    /// separates tokens as a space does.
    ///
    /// # Errors
    ///
    /// [`VitriError`] of kind `input` naming the line and what is wrong with
    /// it.
    pub fn from_dimacs(text: &[u8]) -> (r: Result<(CnfFormula, CnfMeta), VitriError>)
        ensures
            match dimacs_spec(text@) {
                Err(m) => r is Err && r->Err_0.spec_kind() == ErrorKind::Input && r->Err_0.text()
                    == ascii_chars(m),
                Ok(st) => r is Ok && formula_is(r->Ok_0.0, st) && meta_is(r->Ok_0.1, st),
            },
    {
        let mut rd = Reader {
            num_vars: 0,
            clauses: Vec::new(),
            current: Vec::new(),
            track: None,
            show: Vec::new(),
            saw_show: false,
            weights: Vec::new(),
            widest: None,
            line: 0,
        };
        proof {
            assert(clause_ints(rd.clauses@) =~= Seq::<Seq<int>>::empty());
            assert(lit_ints(rd.current@) =~= Seq::<int>::empty());
            assert(rd.show@.map_values(|v: i64| v as int) =~= Seq::<int>::empty());
            assert(rows_view(rd.weights@) =~= Seq::<(i32, WeightParts)>::empty());
            assert(rd.state() == initial_state());
        }
        let mut pos: usize = 0;
        let mut done = false;
        while pos < text.len()
            invariant
                pos <= text@.len(),
                rd.tidy(),
                rd.line <= pos,
                !done ==> read_from(text@, 0, initial_state()) == read_from(text@, pos as int, rd.state()),
                done ==> read_from(text@, 0, initial_state()) == Ok::<ReadState, Seq<u8>>(rd.state()),
                done ==> pos == text@.len(),
            decreases text@.len() - pos,
        {
            let e = super::weights::find_byte(text, pos, 10);
            let line = &text[pos..e];
            match read_line(&mut rd, line) {
                Err(m) => {
                    return Err(refuse(m));
                },
                Ok(stop) => {
                    if stop || e >= text.len() {
                        done = true;
                        pos = text.len();
                    } else {
                        pos = e + 1;
                    }
                },
            }
        }
        if rd.current.len() > 0 {
            close_open(&mut rd);
        }
        if rd.num_vars == 0 && rd.clauses.len() > 0 {
            proof {
                reveal_strlit("Missing problem line");
            }
            return Err(refuse(crate::text::literal_bytes("Missing problem line")));
        }
        match rd.widest {
            Some(w) => {
                if magnitude_of(w.written) > rd.num_vars as u64 {
                    return Err(refuse(exceeds_message(w, rd.num_vars)));
                }
            },
            None => {},
        }
        let ghost fin = rd.state();
        let show_vars: Option<ShowSet<Original>> = if rd.saw_show {
            let mut ids: Vec<u32> = Vec::new();
            let mut i: usize = 0;
            while i < rd.show.len()
                invariant
                    i <= rd.show@.len(),
                    rd.show_tidy(),
                    match rd.widest {
                        Some(w) => magnitude(w.written as int) <= rd.num_vars,
                        None => true,
                    },
                    ids@.len() == i,
                    forall|k: int| 0 <= k < i ==> #[trigger] ids@[k] as int == rd.show@[k] && ids@[k] != 0,
                decreases rd.show@.len() - i,
            {
                let v = rd.show[i];
                proof {
                    match rd.widest {
                        Some(w) => {
                            assert(0 < rd.show@[i as int] <= magnitude(w.written as int));
                        },
                        None => {},
                    }
                }
                ids.push(v as u32);
                i = i + 1;
            }
            match ShowSet::from_dimacs_ids(ids.as_slice()) {
                Ok(set) => {
                    proof {
                        assert forall|x: u32| #[trigger] set@.contains(x) <==> fin.show.contains(x as int) by {
                            if ids@.contains(x) {
                                let k = choose|k: int| 0 <= k < ids@.len() && ids@[k] == x;
                                assert(fin.show[k] == x as int);
                            }
                            if fin.show.contains(x as int) {
                                let k = choose|k: int| 0 <= k < fin.show.len() && fin.show[k] == x as int;
                                assert(ids@[k] == x);
                            }
                        }
                    }
                    Some(set)
                },
                Err(_) => {
                    proof {
                        let k = choose|k: int| 0 <= k < ids@.len() && ids@[k] == 0;
                        assert(ids@[k] != 0);
                    }
                    None
                },
            }
        } else {
            None
        };
        let weights: Option<WeightTable> = if rd.weights.len() == 0 {
            None
        } else {
            let mut table = WeightTable::new();
            let mut i: usize = 0;
            while i < rd.weights.len()
                invariant
                    i <= rd.weights@.len(),
                    rd.weights_tidy(),
                    forall|l: int| #[trigger] table.declared(l) is Some ==> last_weight(rows_view(rd.weights@.take(i as int)), l)
                        == Some(parts_of(table.declared(l)->Some_0)),
                    forall|l: int| #[trigger] last_weight(rows_view(rd.weights@.take(i as int)), l) is Some ==> table.declared(l) is Some,
                decreases rd.weights@.len() - i,
            {
                let (l, w) = &rd.weights[i];
                proof {
                    assert(rd.weights@[i as int].0 != 0);
                    assert(rows_view(rd.weights@.take(i + 1)) == rows_view(rd.weights@.take(i as int)).push((*l, parts_of(*w))));
                }
                let ghost before = table;
                table.set(*l, w.duplicate());
                proof {
                    assert forall|m: int| #[trigger] table.declared(m) is Some implies last_weight(rows_view(rd.weights@.take(i + 1)), m)
                        == Some(parts_of(table.declared(m)->Some_0)) by {
                        let lines = rows_view(rd.weights@.take(i + 1));
                        assert(lines.drop_last() == rows_view(rd.weights@.take(i as int)));
                        assert(lines.last() == (*l, parts_of(*w)));
                        if m != *l as int {
                            assert(table.declared(m) == before.declared(m));
                        }
                    }
                    assert forall|m: int| #[trigger] last_weight(rows_view(rd.weights@.take(i + 1)), m) is Some implies table.declared(m) is Some by {
                        let lines = rows_view(rd.weights@.take(i + 1));
                        assert(lines.drop_last() == rows_view(rd.weights@.take(i as int)));
                        assert(lines.last() == (*l, parts_of(*w)));
                        if m != *l as int {
                            assert(table.declared(m) == before.declared(m));
                            assert(last_weight(rows_view(rd.weights@.take(i as int)), m) is Some);
                        }
                    }
                }
                i = i + 1;
            }
            proof {
                assert(rd.weights@.take(rd.weights@.len() as int) == rd.weights@);
            }
            Some(table)
        };
        let meta = CnfMeta { track: rd.track, show_vars, weights };
        let formula = CnfFormula { num_vars: rd.num_vars, clauses: rd.clauses };
        Ok((formula, meta))
    }
}

} // verus!
