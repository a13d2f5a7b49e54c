use vstd::prelude::*;

verus! {

/// A winner's share of the losing pool: its stake's proportion of the winning
/// pool, applied to the losing pool and rounded down; nothing when the winning
/// pool is empty.
pub open spec fn share_of_losers(bettor_amount: u64, winning_total: u64, losing_total: u64) -> int {
    if winning_total > 0 {
        (bettor_amount * losing_total) / (winning_total as int)
    } else {
        0
    }
}

/// What a winner is paid: its stake back plus its share of the losing pool.
pub open spec fn winnings(bettor_amount: u64, winning_total: u64, losing_total: u64) -> int {
    bettor_amount + share_of_losers(bettor_amount, winning_total, losing_total)
}

/// The payout cannot be computed in 64 bits: the product of stake and losing
/// pool, or the final sum, does not fit.
pub open spec fn payout_overflows(bettor_amount: u64, winning_total: u64, losing_total: u64) -> bool {
    (winning_total > 0 && bettor_amount * losing_total > u64::MAX)
        || winnings(bettor_amount, winning_total, losing_total) > u64::MAX
}

/// Computes a winner's payout with checked integer arithmetic; `None` on overflow.
pub fn compute_winnings(bettor_amount: u64, winning_total: u64, losing_total: u64) -> (r: Option<u64>)
    ensures
        match r {
            Some(v) => !payout_overflows(bettor_amount, winning_total, losing_total) && v == winnings(
                bettor_amount,
                winning_total,
                losing_total,
            ),
            None => payout_overflows(bettor_amount, winning_total, losing_total),
        },
{
    let share: u64 = if winning_total > 0 {
        match bettor_amount.checked_mul(losing_total) {
            Some(product) => product / winning_total,
            None => {
                return None;
            },
        }
    } else {
        0
    };
    bettor_amount.checked_add(share)
}

} // verus!
