//! Decisions of heuristic filters: votes over the first packets of a connection.

use crate::subscription::FilterResult;
use vstd::prelude::*;

verus! {

/// What a vote over a window of packets has come to. It accepts once enough packets matched
/// and what else is asked for is `confirmed`. It drops once the window is exhausted, or once
/// the matches that are within reach no longer suffice even if every packet to come matches.
pub open spec fn vote(
    matched: int,
    reachable: int,
    seen: int,
    window: int,
    required: int,
    confirmed: bool,
) -> FilterResult {
    if matched >= required && confirmed {
        FilterResult::Accept
    } else if seen >= window || reachable + (window - seen) < required {
        FilterResult::Drop
    } else {
        FilterResult::Continue
    }
}

pub fn decide_vote(
    matched: usize,
    reachable: usize,
    seen: usize,
    window: usize,
    required: usize,
    confirmed: bool,
) -> (r: FilterResult)
    requires
        reachable + window <= usize::MAX,
    ensures
        r == vote(
            matched as int,
            reachable as int,
            seen as int,
            window as int,
            required as int,
            confirmed,
        ),
{
    if matched >= required && confirmed {
        return FilterResult::Accept;
    }
    if seen >= window {
        // Window exhausted.
        return FilterResult::Drop;
    }
    // Impossible to reach the required number of matches.
    let remaining: usize = window - seen;
    if reachable + remaining < required {
        return FilterResult::Drop;
    }
    // Not enough evidence yet.
    FilterResult::Continue
}

/// At least `num` in `den` packets matched.
pub open spec fn is_fraction(matched: int, seen: int, num: int, den: int) -> bool {
    matched * den >= seen * num
}

pub fn reaches_fraction(matched: usize, seen: usize, num: u8, den: u8) -> (b: bool)
    ensures
        b == is_fraction(matched as int, seen as int, num as int, den as int),
{
    proof {
        lemma_product_fits(matched as int, den as int);
        lemma_product_fits(seen as int, num as int);
    }
    matched as u128 * den as u128 >= seen as u128 * num as u128
}

proof fn lemma_product_fits(n: int, k: int)
    requires
        0 <= n <= u64::MAX,
        0 <= k <= 255,
    ensures
        0 <= n * k <= u128::MAX,
{
    assert(0 <= n * k <= n * 255) by (nonlinear_arith)
        requires
            0 <= n,
            0 <= k <= 255,
    ;
}

/// A vote that dropped before its window was exhausted could not have been won: however
/// many of the packets to come match, there are too few.
pub proof fn law_early_drop_is_hopeless(
    matched: int,
    reachable: int,
    seen: int,
    window: int,
    required: int,
    confirmed: bool,
    more: int,
    later_matched: int,
)
    requires
        vote(matched, reachable, seen, window, required, confirmed) == FilterResult::Drop,
        seen < window,
        0 <= more <= window - seen,
        later_matched <= reachable + more,
    ensures
        vote(later_matched, later_matched, seen + more, window, required, true)
            != FilterResult::Accept,
{
}

/// A vote goes on only inside its window, and it is decided when the window is exhausted.
pub proof fn law_vote_is_decided_by_the_window(
    matched: int,
    reachable: int,
    seen: int,
    window: int,
    required: int,
    confirmed: bool,
)
    ensures
        vote(matched, reachable, seen, window, required, confirmed) == FilterResult::Continue
            ==> seen < window,
{
}

} // verus!
