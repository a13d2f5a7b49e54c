use vstd::prelude::*;
use crate::ledger::{
    ledger_sum, has_entry, entry_index, stake_of, ids_unique, ledger_upsert, lemma_upsert,
    lemma_remove, lemma_entry_le_sum, lemma_remove_keeps_absent,
};
use crate::market::{
    MarketView, bet_error, market_after_bet, resolve_error, market_after_resolve, claim_error,
    claim_amount, market_after_claim, winning_ledger, winning_total, losing_total,
};
use crate::payout::payout_overflows;
use crate::types::{Bettor, BettingError, Identity, Outcome};

verus! {

/// Every successful bet keeps the market's invariant, so after any sequence of
/// successful bets each side's running total equals the sum of the stakes in
/// its ledger.
pub proof fn law_conservation(m: MarketView, bettor: Identity, choice: Outcome, amount: u64)
    requires
        m.wf(),
        bet_error(m, bettor, choice, amount) is None,
    ensures
        market_after_bet(m, bettor, choice, amount).wf(),
        market_after_bet(m, bettor, choice, amount).total_yes_amount == ledger_sum(
            market_after_bet(m, bettor, choice, amount).yes_bettors,
        ),
        market_after_bet(m, bettor, choice, amount).total_no_amount == ledger_sum(
            market_after_bet(m, bettor, choice, amount).no_bettors,
        ),
{
    let s = if choice == Outcome::Yes { m.yes_bettors } else { m.no_bettors };
    if has_entry(s, bettor) {
        lemma_entry_le_sum(s, entry_index(s, bettor));
    }
    lemma_upsert(s, bettor, amount);
}

/// The market after a series of `place_bet` calls, in order: a refused bet
/// leaves the market as it was.
pub open spec fn market_after_bets(m: MarketView, bets: Seq<(Identity, Outcome, u64)>) -> MarketView
    decreases bets.len(),
{
    if bets.len() == 0 {
        m
    } else {
        let before = market_after_bets(m, bets.drop_last());
        let (bettor, choice, amount) = bets.last();
        if bet_error(before, bettor, choice, amount) is None {
            market_after_bet(before, bettor, choice, amount)
        } else {
            before
        }
    }
}

/// Over any series of bets on a well-formed market, each side's running total
/// stays equal to the sum of the stakes in its ledger.
pub proof fn law_conservation_over_bets(m: MarketView, bets: Seq<(Identity, Outcome, u64)>)
    requires
        m.wf(),
    ensures
        market_after_bets(m, bets).wf(),
        market_after_bets(m, bets).total_yes_amount == ledger_sum(market_after_bets(m, bets).yes_bettors),
        market_after_bets(m, bets).total_no_amount == ledger_sum(market_after_bets(m, bets).no_bettors),
    decreases bets.len(),
{
    if bets.len() > 0 {
        law_conservation_over_bets(m, bets.drop_last());
        let before = market_after_bets(m, bets.drop_last());
        let (bettor, choice, amount) = bets.last();
        if bet_error(before, bettor, choice, amount) is None {
            law_conservation(before, bettor, choice, amount);
        }
    }
}

/// Once a resolution succeeds, a second one by the creator fails with
/// `MarketAlreadyResolved`, every further resolution fails, no bet is taken,
/// and claims leave the outcome as it was.
pub proof fn law_single_resolution(
    m: MarketView,
    outcome: Outcome,
    caller: Identity,
    next_outcome: Outcome,
    bettor: Identity,
    choice: Outcome,
    amount: u64,
    claimant: Identity,
)
    requires
        m.wf(),
        resolve_error(m, m.creator, outcome) is None,
    ensures
        resolve_error(market_after_resolve(m, outcome), m.creator, next_outcome) == Some(
            BettingError::MarketAlreadyResolved,
        ),
        resolve_error(market_after_resolve(m, outcome), caller, next_outcome) is Some,
        bet_error(market_after_resolve(m, outcome), bettor, choice, amount) == Some(
            BettingError::MarketAlreadyResolved,
        ),
        market_after_claim(market_after_resolve(m, outcome), claimant).outcome == outcome,
        market_after_claim(market_after_resolve(m, outcome), claimant).resolved,
{
}

/// A resolution by anyone but the creator fails with `UnauthorizedAccess`.
pub proof fn law_authorization(m: MarketView, caller: Identity, outcome: Outcome)
    requires
        caller != m.creator,
    ensures
        resolve_error(m, caller, outcome) == Some(BettingError::UnauthorizedAccess),
{
}

/// After a successful claim by `claimant`, its next claim on the market fails
/// with `NotAWinner`, whatever the custody then holds.
pub proof fn law_claim_at_most_once(m: MarketView, claimant: Identity, custody_balance: u64, later_balance: u64)
    requires
        m.wf(),
        claim_error(m, claimant, custody_balance) is None,
    ensures
        claim_error(market_after_claim(m, claimant), claimant, later_balance) == Some(
            BettingError::NotAWinner,
        ),
{
    lemma_remove(winning_ledger(m), claimant);
}

/// One call on a market, with the arguments its caller passes.
pub enum MarketCall {
    Bet { bettor: Identity, choice: Outcome, amount: u64 },
    Resolve { caller: Identity, outcome: Outcome },
    Claim { claimant: Identity, custody_balance: u64 },
}

/// The market after one call: the operation's new state when it succeeds,
/// the market as it was when it is refused.
pub open spec fn market_after_call(m: MarketView, call: MarketCall) -> MarketView {
    match call {
        MarketCall::Bet { bettor, choice, amount } => {
            if bet_error(m, bettor, choice, amount) is None {
                market_after_bet(m, bettor, choice, amount)
            } else {
                m
            }
        },
        MarketCall::Resolve { caller, outcome } => {
            if resolve_error(m, caller, outcome) is None {
                market_after_resolve(m, outcome)
            } else {
                m
            }
        },
        MarketCall::Claim { claimant, custody_balance } => {
            if claim_error(m, claimant, custody_balance) is None {
                market_after_claim(m, claimant)
            } else {
                m
            }
        },
    }
}

/// The market after a series of calls, in order.
pub open spec fn market_after_calls(m: MarketView, calls: Seq<MarketCall>) -> MarketView
    decreases calls.len(),
{
    if calls.len() == 0 {
        m
    } else {
        market_after_call(market_after_calls(m, calls.drop_last()), calls.last())
    }
}

/// A successful claim keeps the market's invariant.
pub proof fn lemma_claim_keeps_wf(m: MarketView, claimant: Identity, custody_balance: u64)
    requires
        m.wf(),
        claim_error(m, claimant, custody_balance) is None,
    ensures
        market_after_claim(m, claimant).wf(),
{
    let s = winning_ledger(m);
    lemma_entry_le_sum(s, entry_index(s, claimant));
    lemma_remove(s, claimant);
}

/// Once `absent` has no entry on the winning side of a resolved market, no
/// call brings one back, and the outcome stays.
pub proof fn lemma_call_keeps_absent(m: MarketView, absent: Identity, call: MarketCall)
    requires
        m.wf(),
        m.resolved,
        !has_entry(winning_ledger(m), absent),
    ensures
        market_after_call(m, call).wf(),
        market_after_call(m, call).resolved,
        market_after_call(m, call).outcome == m.outcome,
        !has_entry(winning_ledger(market_after_call(m, call)), absent),
{
    if let MarketCall::Claim { claimant, custody_balance } = call {
        if claim_error(m, claimant, custody_balance) is None {
            lemma_claim_keeps_wf(m, claimant, custody_balance);
            lemma_remove_keeps_absent(winning_ledger(m), claimant, absent);
        }
    }
}

/// After a successful claim by `claimant`, whatever calls follow, its next
/// claim on the market fails with `NotAWinner`.
pub proof fn law_claim_at_most_once_after_calls(
    m: MarketView,
    claimant: Identity,
    custody_balance: u64,
    calls: Seq<MarketCall>,
    later_balance: u64,
)
    requires
        m.wf(),
        claim_error(m, claimant, custody_balance) is None,
    ensures
        claim_error(market_after_calls(market_after_claim(m, claimant), calls), claimant, later_balance)
            == Some(BettingError::NotAWinner),
{
    lemma_claim_keeps_wf(m, claimant, custody_balance);
    lemma_remove(winning_ledger(m), claimant);
    lemma_calls_keep_absent(market_after_claim(m, claimant), claimant, calls);
}

/// `lemma_call_keeps_absent` over a series of calls.
pub proof fn lemma_calls_keep_absent(m: MarketView, absent: Identity, calls: Seq<MarketCall>)
    requires
        m.wf(),
        m.resolved,
        !has_entry(winning_ledger(m), absent),
    ensures
        market_after_calls(m, calls).wf(),
        market_after_calls(m, calls).resolved,
        market_after_calls(m, calls).outcome == m.outcome,
        !has_entry(winning_ledger(market_after_calls(m, calls)), absent),
    decreases calls.len(),
{
    if calls.len() > 0 {
        lemma_calls_keep_absent(m, absent, calls.drop_last());
        lemma_call_keeps_absent(market_after_calls(m, calls.drop_last()), absent, calls.last());
    }
}

/// Two stakes by one identity on one side make a single entry holding their
/// sum: the second stake adds no entry.
pub proof fn law_aggregation(s: Seq<Bettor>, id: Identity, first: u64, second: u64)
    requires
        ids_unique(s),
        !has_entry(s, id),
        first + second <= u64::MAX,
    ensures
        ledger_upsert(ledger_upsert(s, id, first), id, second).len() == s.len() + 1,
        ids_unique(ledger_upsert(ledger_upsert(s, id, first), id, second)),
        stake_of(ledger_upsert(ledger_upsert(s, id, first), id, second), id) == first + second,
{
    lemma_upsert(s, id, first);
    lemma_upsert(ledger_upsert(s, id, first), id, second);
}

/// `Undecided` is never accepted as a bet's side nor as a resolution; on an
/// open market with a positive amount the bet fails with `InvalidBetChoice`,
/// and the creator's resolution with `InvalidOutcome`.
pub proof fn law_undecided_rejected(m: MarketView, bettor: Identity, amount: u64, caller: Identity)
    ensures
        bet_error(m, bettor, Outcome::Undecided, amount) is Some,
        resolve_error(m, caller, Outcome::Undecided) is Some,
        !m.resolved && amount > 0 ==> bet_error(m, bettor, Outcome::Undecided, amount) == Some(
            BettingError::InvalidBetChoice,
        ),
        !m.resolved && caller == m.creator ==> resolve_error(m, caller, Outcome::Undecided) == Some(
            BettingError::InvalidOutcome,
        ),
{
}

/// A winner whose computed payout exceeds the custody balance is refused with
/// `InsufficientFunds`.
pub proof fn law_custody_sufficiency(m: MarketView, claimant: Identity, custody_balance: u64)
    requires
        m.resolved,
        m.outcome != Outcome::Undecided,
        has_entry(winning_ledger(m), claimant),
        !payout_overflows(stake_of(winning_ledger(m), claimant), winning_total(m), losing_total(m)),
        claim_amount(m, claimant) > custody_balance,
    ensures
        claim_error(m, claimant, custody_balance) == Some(BettingError::InsufficientFunds),
{
}

} // verus!
