//! The DIMACS writer: THE emitter for this crate — one line order, one
//! literal encoding. The `p cnf` header comes first and the meta-comments
//! after it; every clause is one line, its literals separated by spaces and
//! `0` ending it.

use super::dimacs::{clause_ints, lit_ints};
use super::{has_empty_clause, mode_token, Clause, CnfFormula, LiteralWeight, Mode, ShowSet, Space};
use crate::text::{ascii_of, decimal, is_ascii_bytes, push_bytes, push_decimal, push_literal, push_signed, signed_decimal};
use vstd::prelude::*;
use vstd::utf8::encode_utf8;

verus! {

/// The literals of a clause separated by single spaces.
pub open spec fn joined(c: Seq<int>) -> Seq<u8>
    decreases c.len(),
{
    if c.len() == 0 {
        Seq::empty()
    } else if c.len() == 1 {
        signed_decimal(c[0])
    } else {
        joined(c.drop_last()) + seq![32u8] + signed_decimal(c.last())
    }
}

/// The line a clause is written as: its literals, then ` 0` and a line feed.
pub open spec fn clause_text(c: Seq<int>) -> Seq<u8> {
    joined(c) + seq![32u8, 48u8, 10u8]
}

/// The clause lines of `cs`, in order.
pub open spec fn clauses_text(cs: Seq<Seq<int>>) -> Seq<u8>
    decreases cs.len(),
{
    if cs.len() == 0 {
        Seq::empty()
    } else {
        clauses_text(cs.drop_last()) + clause_text(cs.last())
    }
}

/// The problem line `p cnf <vars> <clauses>`.
pub open spec fn problem_text(num_vars: nat, num_clauses: nat) -> Seq<u8> {
    ascii_of("p cnf "@) + decimal(num_vars) + seq![32u8] + decimal(num_clauses) + seq![10u8]
}

/// What [`CnfFormula::write_dimacs`] writes for `f`.
pub open spec fn dimacs_text(f: CnfFormula) -> Seq<u8> {
    problem_text(f.num_vars as nat, f.clauses@.len()) + clauses_text(clause_ints(f.clauses@))
}

/// Appends the line of one clause.
fn push_clause(out: &mut Vec<u8>, c: &Clause)
    requires
        is_ascii_bytes(old(out)@),
    ensures
        final(out)@ == old(out)@ + clause_text(lit_ints(c.literals@)),
        is_ascii_bytes(final(out)@),
{
    let ghost start = out@;
    let ghost lits = lit_ints(c.literals@);
    let mut i: usize = 0;
    while i < c.literals.len()
        invariant
            i <= c.literals@.len(),
            lits == lit_ints(c.literals@),
            out@ == start + joined(lits.take(i as int)),
            is_ascii_bytes(out@),
        decreases c.literals@.len() - i,
    {
        let l = c.literals[i];
        let v: i64 = if l.positive {
            l.var.get() as i64
        } else {
            -(l.var.get() as i64)
        };
        proof {
            assert(lits[i as int] == v);
            assert(lits.take(i + 1).drop_last() == lits.take(i as int));
            assert(lits.take(i + 1).last() == v);
        }
        if i > 0 {
            out.push(32);
        } else {
            proof {
                assert(joined(lits.take(0)) == Seq::<u8>::empty());
                assert(lits.take(1).len() == 1);
            }
        }
        push_signed(out, v);
        proof {
            if i > 0 {
                assert(out@ == start + joined(lits.take(i as int)) + seq![32u8] + signed_decimal(v as int));
            }
        }
        i = i + 1;
    }
    proof {
        assert(lits.take(c.literals@.len() as int) == lits);
    }
    out.push(32);
    out.push(48);
    out.push(10);
}

/// Appends the lines of all clauses of `clauses`.
fn push_clauses(out: &mut Vec<u8>, clauses: &Vec<Clause>)
    requires
        is_ascii_bytes(old(out)@),
    ensures
        final(out)@ == old(out)@ + clauses_text(clause_ints(clauses@)),
        is_ascii_bytes(final(out)@),
{
    let ghost start = out@;
    let ghost cs = clause_ints(clauses@);
    let mut i: usize = 0;
    while i < clauses.len()
        invariant
            i <= clauses@.len(),
            cs == clause_ints(clauses@),
            out@ == start + clauses_text(cs.take(i as int)),
            is_ascii_bytes(out@),
        decreases clauses@.len() - i,
    {
        proof {
            assert(cs.take(i + 1).drop_last() == cs.take(i as int));
            assert(cs.take(i + 1).last() == lit_ints(clauses@[i as int].literals@));
        }
        push_clause(out, &clauses[i]);
        i = i + 1;
    }
    proof {
        assert(cs.take(clauses@.len() as int) == cs);
    }
}

impl CnfFormula {
    /// This formula as DIMACS: the `p cnf` header line, then the clauses.
    ///
    /// The inverse of [`CnfFormula::from_dimacs`] — re-parsing what this
    /// writes gives the same formula back. No meta-comment lines are written.
    ///
    /// `num_vars` is written as declared, not as a count of the variables the
    /// clauses still mention. A formula holding the empty clause has no
    /// portable DIMACS spelling: it writes as a line holding only ` 0`, which
    /// readers take for a terminator rather than the contradiction it is.
    pub fn write_dimacs(&self) -> (r: Vec<u8>)
        ensures
            r@ == dimacs_text(*self),
    {
        let mut out: Vec<u8> = Vec::new();
        proof {
            reveal_strlit("p cnf ");
        }
        push_literal(&mut out, "p cnf ");
        push_decimal(&mut out, self.num_vars as u64);
        out.push(32);
        push_decimal(&mut out, self.clauses.len() as u64);
        out.push(10);
        push_clauses(&mut out, &self.clauses);
        out
    }

    /// The clause body alone, without the `p cnf` line: one clause per line,
    /// literals 1-based and signed, `0` ending each line.
    pub fn write_dimacs_clauses(&self) -> (r: Vec<u8>)
        ensures
            r@ == clauses_text(clause_ints(self.clauses@)),
    {
        let mut out: Vec<u8> = Vec::new();
        push_clauses(&mut out, &self.clauses);
        out
    }
}


/// The `c t` line naming a track.
pub open spec fn track_line(m: Mode) -> Seq<u8> {
    ascii_of("c t "@) + ascii_of(mode_token(m)) + seq![10u8]
}

/// The show variables, each after a space.
pub open spec fn show_items(s: Seq<u32>) -> Seq<u8>
    decreases s.len(),
{
    if s.len() == 0 {
        Seq::empty()
    } else {
        show_items(s.drop_last()) + seq![32u8] + decimal(s.last() as nat)
    }
}

/// The `c p show` line declaring the show variables `s`.
pub open spec fn show_line(s: Seq<u32>) -> Seq<u8> {
    ascii_of("c p show"@) + show_items(s) + seq![32u8, 48u8, 10u8]
}

/// The `c p weight` line of one weight row.
pub open spec fn weight_line(w: LiteralWeight) -> Seq<u8> {
    ascii_of("c p weight "@) + signed_decimal(w.literal as int) + seq![32u8] + encode_utf8(w.weight@) + seq![
        32u8,
        48u8,
        10u8,
    ]
}

/// The `c p weight` lines of `ws`, in order.
pub open spec fn weight_lines(ws: Seq<LiteralWeight>) -> Seq<u8>
    decreases ws.len(),
{
    if ws.len() == 0 {
        Seq::empty()
    } else {
        weight_lines(ws.drop_last()) + weight_line(ws.last())
    }
}

/// The meta-comment lines a bundle file carries: the track, then the show
/// set, then the weights — each only where there is one.
pub open spec fn header_text(track: Option<Mode>, show: Option<Seq<u32>>, weights: Option<Seq<LiteralWeight>>) -> Seq<u8> {
    (match track {
        Some(m) => track_line(m),
        None => Seq::empty(),
    }) + (match show {
        Some(s) => show_line(s),
        None => Seq::empty(),
    }) + (match weights {
        Some(ws) => weight_lines(ws),
        None => Seq::empty(),
    })
}

/// The `c t` line.
fn track_bytes(m: Mode) -> (r: Vec<u8>)
    ensures
        r@ == track_line(m),
{
    let mut out: Vec<u8> = Vec::new();
    proof {
        reveal_strlit("c t ");
        reveal_strlit("mc");
        reveal_strlit("wmc");
        reveal_strlit("pmc");
        reveal_strlit("pwmc");
        reveal_strlit("compile");
    }
    push_literal(&mut out, "c t ");
    push_literal(&mut out, m.token());
    out.push(10);
    out
}

/// The `c p show` line.
fn show_bytes(ids: &[u32]) -> (r: Vec<u8>)
    ensures
        r@ == show_line(ids@),
{
    let mut out: Vec<u8> = Vec::new();
    proof {
        reveal_strlit("c p show");
    }
    push_literal(&mut out, "c p show");
    let ghost start = out@;
    let mut i: usize = 0;
    while i < ids.len()
        invariant
            i <= ids@.len(),
            out@ == start + show_items(ids@.take(i as int)),
            is_ascii_bytes(out@),
        decreases ids@.len() - i,
    {
        proof {
            assert(ids@.take(i + 1).drop_last() == ids@.take(i as int));
            assert(ids@.take(i + 1).last() == ids@[i as int]);
        }
        out.push(32);
        push_decimal(&mut out, ids[i] as u64);
        i = i + 1;
    }
    proof {
        assert(ids@.take(ids@.len() as int) == ids@);
    }
    out.push(32);
    out.push(48);
    out.push(10);
    out
}

/// One `c p weight` line.
fn weight_bytes(w: &LiteralWeight) -> (r: Vec<u8>)
    ensures
        r@ == weight_line(*w),
{
    let mut out: Vec<u8> = Vec::new();
    proof {
        reveal_strlit("c p weight ");
    }
    push_literal(&mut out, "c p weight ");
    push_signed(&mut out, w.literal as i64);
    out.push(32);
    push_bytes(&mut out, w.weight.as_str().as_bytes());
    out.push(32);
    out.push(48);
    out.push(10);
    out
}

/// The `c p weight` lines of `rows`.
fn weight_rows_bytes(rows: &[LiteralWeight]) -> (r: Vec<u8>)
    ensures
        r@ == weight_lines(rows@),
{
    let mut out: Vec<u8> = Vec::new();
    let mut i: usize = 0;
    while i < rows.len()
        invariant
            i <= rows@.len(),
            out@ == weight_lines(rows@.take(i as int)),
        decreases rows@.len() - i,
    {
        proof {
            assert(rows@.take(i + 1).drop_last() == rows@.take(i as int));
            assert(rows@.take(i + 1).last() == rows@[i as int]);
        }
        let line = weight_bytes(&rows[i]);
        push_bytes(&mut out, line.as_slice());
        i = i + 1;
    }
    proof {
        assert(rows@.take(rows@.len() as int) == rows@);
    }
    out
}

/// The meta-comment lines.
fn header_bytes<S: Space>(track: Option<Mode>, show: Option<&ShowSet<S>>, weights: Option<&[LiteralWeight]>) -> (r: Vec<u8>)
    ensures
        r@ == header_text(
            track,
            match show {
                Some(s) => Some(s@),
                None => None,
            },
            match weights {
                Some(w) => Some(w@),
                None => None,
            },
        ),
{
    let t = match track {
        Some(m) => track_bytes(m),
        None => Vec::new(),
    };
    let sh = match show {
        Some(set) => show_bytes(set.as_dimacs()),
        None => Vec::new(),
    };
    let w = match weights {
        Some(rows) => weight_rows_bytes(rows),
        None => Vec::new(),
    };
    let mut out: Vec<u8> = Vec::new();
    push_bytes(&mut out, t.as_slice());
    push_bytes(&mut out, sh.as_slice());
    push_bytes(&mut out, w.as_slice());
    proof {
        assert(out@ == Seq::<u8>::empty() + t@ + sh@ + w@);
        assert(Seq::<u8>::empty() + t@ == t@);
    }
    out
}

impl CnfFormula {
    /// This formula as the DIMACS text of a bundle file: the `p cnf` line
    /// first, then the meta-comment lines — the track, the show set over the
    /// space the file is written in, and the weight rows, each where given —
    /// then the clauses. The empty clause has no portable DIMACS spelling, so
    /// a refuted formula is written as an explicit contradiction before it
    /// reaches here.
    pub fn write_dimacs_with_header<S: Space>(
        &self,
        track: Option<Mode>,
        show: Option<&ShowSet<S>>,
        weights: Option<&[LiteralWeight]>,
    ) -> (r: Vec<u8>)
        requires
            !has_empty_clause(self.clauses@),
        ensures
            r@ == problem_text(self.num_vars as nat, self.clauses@.len()) + header_text(
                track,
                match show {
                    Some(s) => Some(s@),
                    None => None,
                },
                match weights {
                    Some(w) => Some(w@),
                    None => None,
                },
            ) + clauses_text(clause_ints(self.clauses@)),
    {
        let mut out: Vec<u8> = Vec::new();
        proof {
            reveal_strlit("p cnf ");
        }
        push_literal(&mut out, "p cnf ");
        push_decimal(&mut out, self.num_vars as u64);
        out.push(32);
        push_decimal(&mut out, self.clauses.len() as u64);
        out.push(10);
        let ghost head = out@;
        let header = header_bytes(track, show, weights);
        let body = self.write_dimacs_clauses();
        push_bytes(&mut out, header.as_slice());
        push_bytes(&mut out, body.as_slice());
        proof {
            assert(head == problem_text(self.num_vars as nat, self.clauses@.len()));
        }
        out
    }
}

} // verus!
