use vstd::prelude::*;
use crate::ledger::{
    LEDGER_CAPACITY, ledger_sum, has_entry, entry_index, stake_of, ids_unique, ledger_upsert,
    ledger_remove, lemma_upsert, lemma_remove, lemma_entry_index_unique, lemma_entry_le_sum,
    find_bettor, ledger_total, ledger_ids_unique,
};
use vstd::utf8::encode_utf8;
use crate::payout::{winnings, payout_overflows, compute_winnings};
use crate::types::{Bettor, BettingError, Identity, Outcome};

verus! {

/// The longest question a market can carry, in UTF-8 bytes.
pub const QUESTION_MAX_LEN: usize = 256;

/// One market: its question, lifecycle, running totals and the two ledgers.
#[derive(Clone, Debug)]
pub struct Market {
    pub creator: Identity,
    pub question: String,
    pub resolved: bool,
    pub outcome: Outcome,
    pub total_yes_amount: u64,
    pub total_no_amount: u64,
    pub yes_bettors: Vec<Bettor>,
    pub no_bettors: Vec<Bettor>,
}

/// The mathematical content of a [`Market`].
pub struct MarketView {
    pub creator: Identity,
    pub question: Seq<char>,
    pub resolved: bool,
    pub outcome: Outcome,
    pub total_yes_amount: u64,
    pub total_no_amount: u64,
    pub yes_bettors: Seq<Bettor>,
    pub no_bettors: Seq<Bettor>,
}

impl View for Market {
    type V = MarketView;

    open spec fn view(&self) -> MarketView {
        MarketView {
            creator: self.creator,
            question: self.question@,
            resolved: self.resolved,
            outcome: self.outcome,
            total_yes_amount: self.total_yes_amount,
            total_no_amount: self.total_no_amount,
            yes_bettors: self.yes_bettors@,
            no_bettors: self.no_bettors@,
        }
    }
}

impl MarketView {
    /// The market's invariant: a market is resolved exactly when its outcome is
    /// decided, each ledger is bounded and names each identity at most once,
    /// and each running total is the sum of its ledger.
    pub open spec fn wf(self) -> bool {
        &&& encode_utf8(self.question).len() <= QUESTION_MAX_LEN
        &&& (self.resolved <==> self.outcome != Outcome::Undecided)
        &&& self.yes_bettors.len() <= LEDGER_CAPACITY
        &&& self.no_bettors.len() <= LEDGER_CAPACITY
        &&& ids_unique(self.yes_bettors)
        &&& ids_unique(self.no_bettors)
        &&& self.total_yes_amount == ledger_sum(self.yes_bettors)
        &&& self.total_no_amount == ledger_sum(self.no_bettors)
    }
}

impl Market {
    pub open spec fn wf(&self) -> bool {
        self@.wf()
    }

    /// Whether the market meets its invariant, as stored data read back may not.
    pub fn is_well_formed(&self) -> (r: bool)
        ensures
            r == self.wf(),
    {
        let question_bytes = self.question.as_str().as_bytes();
        if question_bytes.len() > QUESTION_MAX_LEN {
            return false;
        }
        if self.resolved != (self.outcome != Outcome::Undecided) {
            return false;
        }
        if self.yes_bettors.len() > LEDGER_CAPACITY || self.no_bettors.len() > LEDGER_CAPACITY {
            return false;
        }
        if !ledger_ids_unique(&self.yes_bettors) || !ledger_ids_unique(&self.no_bettors) {
            return false;
        }
        let yes_ok = match ledger_total(&self.yes_bettors) {
            Some(v) => v == self.total_yes_amount,
            None => false,
        };
        let no_ok = match ledger_total(&self.no_bettors) {
            Some(v) => v == self.total_no_amount,
            None => false,
        };
        yes_ok && no_ok
    }
}

/// Which error, if any, a stake of `amount` on one side meets, given that
/// side's ledger and total.
pub open spec fn stake_error(ledger: Seq<Bettor>, total: u64, bettor: Identity, amount: u64) -> Option<BettingError> {
    if !has_entry(ledger, bettor) && ledger.len() >= LEDGER_CAPACITY {
        Some(BettingError::LedgerFull)
    } else if total + amount > u64::MAX {
        Some(BettingError::OverflowError)
    } else {
        None
    }
}

/// Which error, if any, `place_bet` reports; checks go in this order: the
/// market is open, the amount is positive, the choice is Yes or No, a new
/// bettor finds room in the ledger, and the total does not overflow.
pub open spec fn bet_error(m: MarketView, bettor: Identity, choice: Outcome, amount: u64) -> Option<BettingError> {
    if m.resolved {
        Some(BettingError::MarketAlreadyResolved)
    } else if amount == 0 {
        Some(BettingError::InvalidBetAmount)
    } else if choice == Outcome::Yes {
        stake_error(m.yes_bettors, m.total_yes_amount, bettor, amount)
    } else if choice == Outcome::No {
        stake_error(m.no_bettors, m.total_no_amount, bettor, amount)
    } else {
        Some(BettingError::InvalidBetChoice)
    }
}

/// The market after a successful bet: the chosen side's ledger records the
/// stake and its total grows by `amount`.
pub open spec fn market_after_bet(m: MarketView, bettor: Identity, choice: Outcome, amount: u64) -> MarketView {
    if choice == Outcome::Yes {
        MarketView {
            total_yes_amount: (m.total_yes_amount + amount) as u64,
            yes_bettors: ledger_upsert(m.yes_bettors, bettor, amount),
            ..m
        }
    } else {
        MarketView {
            total_no_amount: (m.total_no_amount + amount) as u64,
            no_bettors: ledger_upsert(m.no_bettors, bettor, amount),
            ..m
        }
    }
}

/// Which error, if any, `resolve_market` reports: the caller must be the
/// creator, the market still open, and the outcome Yes or No.
pub open spec fn resolve_error(m: MarketView, caller: Identity, outcome: Outcome) -> Option<BettingError> {
    if caller != m.creator {
        Some(BettingError::UnauthorizedAccess)
    } else if m.resolved {
        Some(BettingError::MarketAlreadyResolved)
    } else if outcome == Outcome::Undecided {
        Some(BettingError::InvalidOutcome)
    } else {
        None
    }
}

/// The market after a successful resolution.
pub open spec fn market_after_resolve(m: MarketView, outcome: Outcome) -> MarketView {
    MarketView { resolved: true, outcome, ..m }
}

/// The winning side's ledger of a resolved market.
pub open spec fn winning_ledger(m: MarketView) -> Seq<Bettor> {
    if m.outcome == Outcome::Yes {
        m.yes_bettors
    } else {
        m.no_bettors
    }
}

/// The winning side's current total.
pub open spec fn winning_total(m: MarketView) -> u64 {
    if m.outcome == Outcome::Yes {
        m.total_yes_amount
    } else {
        m.total_no_amount
    }
}

/// The losing side's current total.
pub open spec fn losing_total(m: MarketView) -> u64 {
    if m.outcome == Outcome::Yes {
        m.total_no_amount
    } else {
        m.total_yes_amount
    }
}

/// What `claimant` is paid: the payout formula on its stake and the live
/// totals at the moment of the claim.
pub open spec fn claim_amount(m: MarketView, claimant: Identity) -> int {
    winnings(stake_of(winning_ledger(m), claimant), winning_total(m), losing_total(m))
}

/// Which error, if any, `claim_winnings` reports, given the custody balance.
pub open spec fn claim_error(m: MarketView, claimant: Identity, custody_balance: u64) -> Option<BettingError> {
    if !m.resolved {
        Some(BettingError::MarketNotResolved)
    } else if m.outcome == Outcome::Undecided {
        Some(BettingError::InvalidMarketState)
    } else if !has_entry(winning_ledger(m), claimant) {
        Some(BettingError::NotAWinner)
    } else if payout_overflows(stake_of(winning_ledger(m), claimant), winning_total(m), losing_total(m)) {
        Some(BettingError::OverflowError)
    } else if claim_amount(m, claimant) > custody_balance {
        Some(BettingError::InsufficientFunds)
    } else {
        None
    }
}

/// The market after a successful claim: the claimant's entry leaves the
/// winning ledger and its stake leaves the winning total. The losing total
/// stays as it is, so later winners divide the same losing pool by a smaller
/// winning total.
pub open spec fn market_after_claim(m: MarketView, claimant: Identity) -> MarketView {
    if m.outcome == Outcome::Yes {
        MarketView {
            total_yes_amount: (m.total_yes_amount - stake_of(m.yes_bettors, claimant)) as u64,
            yes_bettors: ledger_remove(m.yes_bettors, claimant),
            ..m
        }
    } else {
        MarketView {
            total_no_amount: (m.total_no_amount - stake_of(m.no_bettors, claimant)) as u64,
            no_bettors: ledger_remove(m.no_bettors, claimant),
            ..m
        }
    }
}

/// Opens a market for `question`, owned by `creator`, with empty ledgers.
pub fn create_market(creator: Identity, question: String) -> (m: Market)
    requires
        encode_utf8(question@).len() <= QUESTION_MAX_LEN,
    ensures
        m.wf(),
        m@.creator == creator,
        m@.question == question@,
        !m@.resolved,
        m@.outcome == Outcome::Undecided,
        m@.total_yes_amount == 0,
        m@.total_no_amount == 0,
        m@.yes_bettors.len() == 0,
        m@.no_bettors.len() == 0,
{
    let m = Market {
        creator,
        question,
        resolved: false,
        outcome: Outcome::Undecided,
        total_yes_amount: 0,
        total_no_amount: 0,
        yes_bettors: Vec::new(),
        no_bettors: Vec::new(),
    };
    assert(m@.yes_bettors =~= Seq::<Bettor>::empty());
    assert(m@.no_bettors =~= Seq::<Bettor>::empty());
    m
}

/// Records a stake of `amount` by `bettor` on one side, given its ledger and
/// running total; nothing changes on error.
fn record_stake(ledger: &mut Vec<Bettor>, total: &mut u64, bettor: Identity, amount: u64) -> (r: Result<(), BettingError>)
    requires
        ids_unique(old(ledger)@),
        old(ledger)@.len() <= LEDGER_CAPACITY,
        *old(total) == ledger_sum(old(ledger)@),
    ensures
        ids_unique(final(ledger)@),
        final(ledger)@.len() <= LEDGER_CAPACITY,
        *final(total) == ledger_sum(final(ledger)@),
        match stake_error(old(ledger)@, *old(total), bettor, amount) {
            Some(e) => r == Err::<(), BettingError>(e) && final(ledger)@ == old(ledger)@ && *final(total) == *old(total),
            None => r == Ok::<(), BettingError>(()) && final(ledger)@ == ledger_upsert(old(ledger)@, bettor, amount)
                && *final(total) == *old(total) + amount,
        },
{
    let ghost s = ledger@;
    let found = find_bettor(ledger, &bettor);
    if found.is_none() && ledger.len() >= LEDGER_CAPACITY {
        return Err(BettingError::LedgerFull);
    }
    let new_total = match total.checked_add(amount) {
        Some(t) => t,
        None => {
            return Err(BettingError::OverflowError);
        },
    };
    match found {
        Some(i) => {
            proof {
                lemma_entry_index_unique(s, bettor, i as int);
                lemma_entry_le_sum(s, i as int);
            }
            let current = ledger[i].amount;
            ledger.set(i, Bettor { bettor, amount: current + amount });
        },
        None => {
            ledger.push(Bettor { bettor, amount });
        },
    }
    proof {
        lemma_upsert(s, bettor, amount);
        assert(ledger@ =~= ledger_upsert(s, bettor, amount));
    }
    *total = new_total;
    Ok(())
}

/// Records `bettor`'s stake of `amount` on `choice`. The caller moves the
/// funds into the market's custody; on any error the market is unchanged.
pub fn place_bet(market: &mut Market, bettor: Identity, choice: Outcome, amount: u64) -> (r: Result<(), BettingError>)
    requires
        old(market).wf(),
    ensures
        final(market).wf(),
        match bet_error(old(market)@, bettor, choice, amount) {
            Some(e) => r == Err::<(), BettingError>(e) && final(market)@ == old(market)@,
            None => r == Ok::<(), BettingError>(()) && final(market)@ == market_after_bet(
                old(market)@,
                bettor,
                choice,
                amount,
            ),
        },
{
    if market.resolved {
        return Err(BettingError::MarketAlreadyResolved);
    }
    if amount == 0 {
        return Err(BettingError::InvalidBetAmount);
    }
    match choice {
        Outcome::Yes => record_stake(&mut market.yes_bettors, &mut market.total_yes_amount, bettor, amount),
        Outcome::No => record_stake(&mut market.no_bettors, &mut market.total_no_amount, bettor, amount),
        Outcome::Undecided => Err(BettingError::InvalidBetChoice),
    }
}

/// Settles the market on `outcome`; only its creator may, and only once.
pub fn resolve_market(market: &mut Market, caller: Identity, outcome: Outcome) -> (r: Result<(), BettingError>)
    requires
        old(market).wf(),
    ensures
        final(market).wf(),
        match resolve_error(old(market)@, caller, outcome) {
            Some(e) => r == Err::<(), BettingError>(e) && final(market)@ == old(market)@,
            None => r == Ok::<(), BettingError>(()) && final(market)@ == market_after_resolve(old(market)@, outcome),
        },
{
    if !market.creator.same_as(&caller) {
        return Err(BettingError::UnauthorizedAccess);
    }
    if market.resolved {
        return Err(BettingError::MarketAlreadyResolved);
    }
    if outcome == Outcome::Undecided {
        return Err(BettingError::InvalidOutcome);
    }
    market.resolved = true;
    market.outcome = outcome;
    Ok(())
}

/// Settles `claimant`'s winning stake against a custody holding
/// `custody_balance`: returns the amount to pay out and takes the claimant's
/// entry and stake off the winning side. The caller moves the funds out of
/// custody; on any error the market is unchanged.
pub fn claim_winnings(market: &mut Market, claimant: Identity, custody_balance: u64) -> (r: Result<u64, BettingError>)
    requires
        old(market).wf(),
    ensures
        final(market).wf(),
        match claim_error(old(market)@, claimant, custody_balance) {
            Some(e) => r == Err::<u64, BettingError>(e) && final(market)@ == old(market)@,
            None => r == Ok::<u64, BettingError>(claim_amount(old(market)@, claimant) as u64)
                && final(market)@ == market_after_claim(old(market)@, claimant),
        },
{
    if !market.resolved {
        return Err(BettingError::MarketNotResolved);
    }
    let is_yes = match market.outcome {
        Outcome::Yes => true,
        Outcome::No => false,
        Outcome::Undecided => {
            return Err(BettingError::InvalidMarketState);
        },
    };
    let ghost m = market@;
    let found = if is_yes {
        find_bettor(&market.yes_bettors, &claimant)
    } else {
        find_bettor(&market.no_bettors, &claimant)
    };
    let index = match found {
        Some(i) => i,
        None => {
            return Err(BettingError::NotAWinner);
        },
    };
    proof {
        lemma_entry_index_unique(winning_ledger(m), claimant, index as int);
        lemma_entry_le_sum(winning_ledger(m), index as int);
    }
    let (bettor_amount, win_total, lose_total) = if is_yes {
        (market.yes_bettors[index].amount, market.total_yes_amount, market.total_no_amount)
    } else {
        (market.no_bettors[index].amount, market.total_no_amount, market.total_yes_amount)
    };
    let total_winnings = match compute_winnings(bettor_amount, win_total, lose_total) {
        Some(v) => v,
        None => {
            return Err(BettingError::OverflowError);
        },
    };
    if total_winnings > custody_balance {
        return Err(BettingError::InsufficientFunds);
    }
    proof {
        lemma_remove(winning_ledger(m), claimant);
    }
    if is_yes {
        market.yes_bettors.remove(index);
        market.total_yes_amount = market.total_yes_amount - bettor_amount;
    } else {
        market.no_bettors.remove(index);
        market.total_no_amount = market.total_no_amount - bettor_amount;
    }
    Ok(total_winnings)
}

} // verus!
