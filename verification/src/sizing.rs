//! Padded row counts: how many rows a table gets for a given number of events.

use vstd::arithmetic::power2::*;
use vstd::prelude::*;

verus! {

/// Why no row count could be chosen.
#[derive(Debug, Clone, Copy, PartialEq, Eq, Structural)]
pub enum SizeError {
    /// The fixed row count is smaller than the number of rows to hold.
    FixedTooSmall,
    /// The padded row count does not fit in `usize`.
    Overflow,
}

/// `n` is `2^e` for some natural `e`.
pub open spec fn is_power_of_two(n: nat) -> bool {
    exists|e: nat| n == pow2(e)
}

/// The least `e` with `n <= 2^e`.
pub open spec fn log2_ceil(n: nat) -> nat
    decreases n,
{
    if n <= 1 {
        0
    } else {
        1 + log2_ceil((n + 1) / 2)
    }
}

/// The row count of a table that has to hold `n` rows: `2^p` when the power
/// `p` is fixed, otherwise the least power of two that is at least `n`.
pub open spec fn padded_rows(n: nat, fixed_power: Option<usize>) -> nat {
    match fixed_power {
        Some(power) => pow2(power as nat),
        None => pow2(log2_ceil(n)),
    }
}

/// The outcome of sizing a table for `n` rows.
pub open spec fn row_sizing(n: nat, fixed_power: Option<usize>) -> Result<usize, SizeError> {
    let rows = padded_rows(n, fixed_power);
    if rows < n {
        Err(SizeError::FixedTooSmall)
    } else if rows > usize::MAX {
        Err(SizeError::Overflow)
    } else {
        Ok(rows as usize)
    }
}

/// `log2_ceil(n)` is an exponent whose power of two reaches `n`, and the
/// exponent below it does not.
pub proof fn lemma_log2_ceil_is_least(n: nat)
    ensures
        n <= pow2(log2_ceil(n)),
        log2_ceil(n) > 0 ==> pow2((log2_ceil(n) - 1) as nat) < n,
    decreases n,
{
    lemma2_to64();
    if n > 1 {
        let half: nat = (n + 1) / 2;
        lemma_log2_ceil_is_least(half);
        lemma_pow2_unfold(log2_ceil(n));
        if log2_ceil(half) > 0 {
            lemma_pow2_unfold(log2_ceil(half));
        }
    }
}

/// An exponent `e` with `2^(e-1) < n <= 2^e` is `log2_ceil(n)`.
pub proof fn lemma_log2_ceil_unique(n: nat, e: nat)
    requires
        n <= pow2(e),
        e > 0 ==> pow2((e - 1) as nat) < n,
    ensures
        e == log2_ceil(n),
{
    let l = log2_ceil(n);
    lemma_log2_ceil_is_least(n);
    if e < l {
        if e < l - 1 {
            lemma_pow2_strictly_increases(e, (l - 1) as nat);
        }
    } else if l < e {
        if l < e - 1 {
            lemma_pow2_strictly_increases(l, (e - 1) as nat);
        }
    }
}

/// Every padded row count is a power of two; one chosen without a fixed
/// power holds all `n` rows and is the least power of two that does.
pub proof fn lemma_padded_rows(n: nat, fixed_power: Option<usize>)
    ensures
        is_power_of_two(padded_rows(n, fixed_power)),
        padded_rows(n, fixed_power) >= 1,
        fixed_power is None ==> padded_rows(n, fixed_power) >= n,
        fixed_power is None ==> forall|e: nat| n <= pow2(e) ==> padded_rows(n, fixed_power) <= #[trigger] pow2(e),
{
    match fixed_power {
        Some(power) => {
            assert(padded_rows(n, fixed_power) == pow2(power as nat));
            lemma_pow2_pos(power as nat);
        },
        None => {
            let l = log2_ceil(n);
            assert(padded_rows(n, fixed_power) == pow2(l));
            lemma_pow2_pos(l);
            lemma_log2_ceil_is_least(n);
            assert forall|e: nat| n <= pow2(e) implies pow2(l) <= #[trigger] pow2(e) by {
                if e < l {
                    if e < l - 1 {
                        lemma_pow2_strictly_increases(e, (l - 1) as nat);
                    }
                } else if l < e {
                    lemma_pow2_strictly_increases(l, e);
                }
            }
        },
    }
}

/// Computes `2^power`, or `None` when it does not fit in `usize`.
pub fn checked_pow2(power: usize) -> (r: Option<usize>)
    ensures
        r == (if pow2(power as nat) <= usize::MAX {
            Some(pow2(power as nat) as usize)
        } else {
            None
        }),
{
    let mut value: usize = 1;
    let mut e: usize = 0;
    proof {
        lemma2_to64();
    }
    while e < power
        invariant
            e <= power,
            value == pow2(e as nat),
        decreases power - e,
    {
        proof {
            lemma_pow2_unfold((e + 1) as nat);
        }
        if value > usize::MAX / 2 {
            proof {
                if e + 1 < power {
                    lemma_pow2_strictly_increases((e + 1) as nat, power as nat);
                }
            }
            return None;
        }
        value = value * 2;
        e = e + 1;
    }
    Some(value)
}

/// Computes the least power of two that is at least `n`, or `None` when it
/// does not fit in `usize`.
pub fn checked_next_power_of_two(n: usize) -> (r: Option<usize>)
    ensures
        r == (if pow2(log2_ceil(n as nat)) <= usize::MAX {
            Some(pow2(log2_ceil(n as nat)) as usize)
        } else {
            None
        }),
{
    let mut value: usize = 1;
    let ghost mut e: nat = 0;
    proof {
        lemma2_to64();
    }
    while value < n
        invariant
            value >= 1,
            value == pow2(e),
            e > 0 ==> pow2((e - 1) as nat) < n,
        decreases usize::MAX - value,
    {
        proof {
            lemma_pow2_unfold(e + 1);
        }
        if value > usize::MAX / 2 {
            proof {
                let l = log2_ceil(n as nat);
                lemma_log2_ceil_is_least(n as nat);
                if l <= e {
                    if l < e {
                        lemma_pow2_strictly_increases(l, e);
                    }
                } else if e + 1 < l {
                    lemma_pow2_strictly_increases(e + 1, l);
                }
            }
            return None;
        }
        value = value * 2;
        proof {
            e = e + 1;
        }
    }
    proof {
        lemma_log2_ceil_unique(n as nat, e);
    }
    Some(value)
}

/// Chooses the row count of a table that has to hold `n` rows.
///
/// With a fixed power `p` the table has `2^p` rows, and fewer than `n` is an
/// error rather than a truncated table. Without one the table has the least
/// power of two that is at least `n`, so one row when `n` is zero.
pub fn next_power_of_two(n: usize, fixed_power: Option<usize>) -> (r: Result<usize, SizeError>)
    ensures
        r == row_sizing(n as nat, fixed_power),
{
    match fixed_power {
        Some(power) => {
            match checked_pow2(power) {
                Some(rows) => {
                    if n > rows {
                        Err(SizeError::FixedTooSmall)
                    } else {
                        Ok(rows)
                    }
                },
                None => Err(SizeError::Overflow),
            }
        },
        None => {
            proof {
                lemma_log2_ceil_is_least(n as nat);
            }
            match checked_next_power_of_two(n) {
                Some(rows) => Ok(rows),
                None => Err(SizeError::Overflow),
            }
        },
    }
}

} // verus!
