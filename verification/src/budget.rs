//! The budget arithmetic every stage shares: what is left before a deadline,
//! and how a run-wide budget is divided into the share one stage may spend.

use crate::clock::{ms_nanos, Duration, Instant};
use vstd::prelude::*;

verus! {

/// Arjun's default allowance when the run has no budget, in milliseconds.
pub const ARJUN_BUDGET_ABS_DEFAULT_MS: u64 = 600_000;

/// The least Arjun is given from a run budget, in milliseconds.
pub const ARJUN_BUDGET_FLOOR_MS: u64 = 5_000;

/// The most Arjun is given from a run budget, in milliseconds.
pub const ARJUN_BUDGET_CAP_MS: u64 = 600_000;

/// A run budget at or below this many milliseconds is a short window, of
/// which Arjun gets a sixth rather than a quarter.
pub const ARJUN_SHORT_WINDOW_MS: u64 = 300_000;

/// The least vtree construction is given, in milliseconds.
pub const VTREE_BUDGET_FLOOR_MS: u64 = 90_000;

/// The most vtree construction is given, in milliseconds.
pub const VTREE_BUDGET_CAP_MS: u64 = 900_000;

/// `x` held inside `lo..=hi`.
pub open spec fn clamp_int(x: int, lo: int, hi: int) -> int {
    if x < lo {
        lo
    } else if x > hi {
        hi
    } else {
        x
    }
}

/// Arjun's allowance in milliseconds for a run budget of `budget_ms`: a sixth
/// of a short window and a quarter of a longer one, held between the floor
/// and the cap; the default when there is no budget.
pub open spec fn arjun_budget_spec(budget_ms: Option<u64>) -> int {
    match budget_ms {
        None => ARJUN_BUDGET_ABS_DEFAULT_MS as int,
        Some(t) => clamp_int(
            if t <= ARJUN_SHORT_WINDOW_MS {
                (t / 6) as int
            } else {
                (t / 4) as int
            },
            ARJUN_BUDGET_FLOOR_MS as int,
            ARJUN_BUDGET_CAP_MS as int,
        ),
    }
}

/// What is left before `deadline`, as read at `now`: zero once it has passed.
pub fn remaining(deadline: Instant, now: Instant) -> (r: Duration)
    ensures
        r.nanos() == if deadline.at() >= now.at() {
            deadline.at() - now.at()
        } else {
            0
        },
{
    deadline.saturating_duration_since(now)
}

/// Whether `deadline` has passed at `now`; no deadline never passes.
pub fn expired(deadline: Option<Instant>, now: Instant) -> (r: bool)
    ensures
        r == match deadline {
            Some(d) => now.at() >= d.at(),
            None => false,
        },
{
    match deadline {
        Some(d) => now.not_before(d),
        None => false,
    }
}

/// `budget`, cut to what is left before `deadline` at `now`.
pub fn clamp(budget: Duration, deadline: Option<Instant>, now: Instant) -> (r: Duration)
    ensures
        r.nanos() == match deadline {
            Some(d) => {
                let left: nat = if d.at() >= now.at() {
                    (d.at() - now.at()) as nat
                } else {
                    0
                };
                if budget.nanos() <= left {
                    budget.nanos()
                } else {
                    left
                }
            },
            None => budget.nanos(),
        },
{
    match deadline {
        Some(d) => budget.shorter(remaining(d, now)),
        None => budget,
    }
}

/// Arjun's allowance in milliseconds for a run budget of `budget_ms`.
pub fn arjun_budget_ms(budget_ms: Option<u64>) -> (r: u64)
    ensures
        r == arjun_budget_spec(budget_ms),
{
    match budget_ms {
        None => ARJUN_BUDGET_ABS_DEFAULT_MS,
        Some(t) => {
            let share = if t <= ARJUN_SHORT_WINDOW_MS {
                t / 6
            } else {
                t / 4
            };
            if share < ARJUN_BUDGET_FLOOR_MS {
                ARJUN_BUDGET_FLOOR_MS
            } else if share > ARJUN_BUDGET_CAP_MS {
                ARJUN_BUDGET_CAP_MS
            } else {
                share
            }
        },
    }
}

/// Vtree construction's allowance in milliseconds out of `remaining_wall_ms`
/// left: a third of it, held between the floor and the cap.
pub fn vtree_budget_ms(remaining_wall_ms: u64) -> (r: u64)
    ensures
        r == clamp_int(
            (remaining_wall_ms / 3) as int,
            VTREE_BUDGET_FLOOR_MS as int,
            VTREE_BUDGET_CAP_MS as int,
        ),
{
    let third = remaining_wall_ms / 3;
    if third < VTREE_BUDGET_FLOOR_MS {
        VTREE_BUDGET_FLOOR_MS
    } else if third > VTREE_BUDGET_CAP_MS {
        VTREE_BUDGET_CAP_MS
    } else {
        third
    }
}

/// The instant vtree construction must stop by under the share policy: its
/// allowance out of what is left of the run at `now`, counted from `now`, and
/// never past the run's own deadline.
pub fn vtree_share_deadline(run_deadline: Instant, now: Instant) -> (r: Instant)
    ensures
        r.at() == share_end(run_deadline.at() as int, now.at() as int),
{
    let left = run_deadline.saturating_duration_since(now);
    let left_ms: u128 = left.as_millis();
    let remaining_ms = #[verifier::truncate] (left_ms as u64);
    proof {
        assert(left.nanos() == remaining_spec(run_deadline, now));
        assert(left_ms == remaining_spec(run_deadline, now) / (ms_nanos() as nat));
        assert(remaining_ms == #[verifier::truncate] ((remaining_spec(run_deadline, now) / (ms_nanos() as nat)) as u64));
    }
    let share_ms = vtree_budget_ms(remaining_ms);
    let budget = Duration::from_millis(share_ms);
    proof {
        assert(share_ms == vtree_spec_share(remaining_ms));
        assert(budget.nanos() == vtree_spec_share(remaining_ms) * ms_nanos());
    }
    let ghost share = vtree_spec_share(remaining_ms) * ms_nanos();
    match now.checked_add(budget) {
        Some(t) => {
            let r = t.earlier(run_deadline);
            proof {
                assert(t.at() == now.at() + share);
                assert(r.at() == if now.at() + share <= run_deadline.at() {
                    now.at() + share
                } else {
                    run_deadline.at() as int
                });
            }
            r
        },
        None => {
            proof {
                run_deadline.lemma_at_bounded();
            }
            run_deadline
        },
    }
}

/// Where the share policy ends construction that starts at `now` (in
/// nanoseconds) in a run that ends at `run`: its allowance out of what is
/// left, in whole milliseconds, counted from `now`, and never past `run`.
pub open spec fn share_end(run: int, now: int) -> int {
    let left: nat = if run >= now {
        (run - now) as nat
    } else {
        0
    };
    let left_ms = #[verifier::truncate] ((left / (ms_nanos() as nat)) as u64);
    let share = vtree_spec_share(left_ms) * ms_nanos();
    if now + share <= run {
        now + share
    } else {
        run
    }
}

/// What is left before `deadline` at `now`, in nanoseconds.
pub open spec fn remaining_spec(deadline: Instant, now: Instant) -> nat {
    if deadline.at() >= now.at() {
        (deadline.at() - now.at()) as nat
    } else {
        0
    }
}

/// Vtree construction's allowance in milliseconds out of `ms` left.
pub open spec fn vtree_spec_share(ms: u64) -> int {
    clamp_int((ms / 3) as int, VTREE_BUDGET_FLOOR_MS as int, VTREE_BUDGET_CAP_MS as int)
}

} // verus!
