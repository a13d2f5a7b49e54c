use betting_market::ledger::{find_bettor, LEDGER_CAPACITY};
use betting_market::market::{
    claim_winnings, create_market, place_bet, resolve_market, Market, QUESTION_MAX_LEN,
};
use betting_market::payout::compute_winnings;
use betting_market::types::{Bettor, BettingError, Identity, Outcome};

fn id(n: u8) -> Identity {
    Identity::new([n; 32])
}

fn open_market() -> Market {
    create_market(id(1), String::from("Will it rain tomorrow?"))
}

fn sum(ledger: &[Bettor]) -> u64 {
    ledger.iter().map(|b| b.amount).sum()
}

#[test]
fn create_market_starts_open_and_empty() {
    let m = open_market();
    assert!(m.creator.same_as(&id(1)));
    assert_eq!(m.question, "Will it rain tomorrow?");
    assert!(!m.resolved);
    assert_eq!(m.outcome, Outcome::Undecided);
    assert_eq!(m.total_yes_amount, 0);
    assert_eq!(m.total_no_amount, 0);
    assert!(m.yes_bettors.is_empty());
    assert!(m.no_bettors.is_empty());
}

#[test]
fn create_market_accepts_longest_question() {
    let q = "q".repeat(QUESTION_MAX_LEN);
    let m = create_market(id(1), q.clone());
    assert_eq!(m.question, q);
}

#[test]
fn identities_compare_by_bytes() {
    let mut bytes = [7u8; 32];
    assert!(id(7).same_as(&Identity::new(bytes)));
    bytes[31] = 8;
    assert!(!id(7).same_as(&Identity::new(bytes)));
}

#[test]
fn totals_match_ledgers_after_bets() {
    let mut m = open_market();
    let bets = [
        (2u8, Outcome::Yes, 10u64),
        (3, Outcome::No, 25),
        (2, Outcome::Yes, 5),
        (4, Outcome::Yes, 7),
        (3, Outcome::No, 1),
        (5, Outcome::Undecided, 9),
        (6, Outcome::No, 0),
    ];
    for (who, side, amount) in bets {
        let _ = place_bet(&mut m, id(who), side, amount);
        assert_eq!(m.total_yes_amount, sum(&m.yes_bettors));
        assert_eq!(m.total_no_amount, sum(&m.no_bettors));
    }
    assert_eq!(m.total_yes_amount, 22);
    assert_eq!(m.total_no_amount, 26);
    assert_eq!(m.yes_bettors.len(), 2);
    assert_eq!(m.no_bettors.len(), 1);
}

#[test]
fn second_resolution_fails_and_outcome_stays() {
    let mut m = open_market();
    assert_eq!(resolve_market(&mut m, id(1), Outcome::No), Ok(()));
    assert!(m.resolved);
    assert_eq!(m.outcome, Outcome::No);
    assert_eq!(
        resolve_market(&mut m, id(1), Outcome::Yes),
        Err(BettingError::MarketAlreadyResolved)
    );
    assert_eq!(m.outcome, Outcome::No);
    assert_eq!(
        place_bet(&mut m, id(2), Outcome::Yes, 10),
        Err(BettingError::MarketAlreadyResolved)
    );
    assert_eq!(m.outcome, Outcome::No);
}

#[test]
fn resolution_by_stranger_is_unauthorized() {
    let mut m = open_market();
    place_bet(&mut m, id(2), Outcome::Yes, 10).unwrap();
    let before = m.clone();
    assert_eq!(
        resolve_market(&mut m, id(2), Outcome::Yes),
        Err(BettingError::UnauthorizedAccess)
    );
    assert!(!m.resolved);
    assert_eq!(m.outcome, before.outcome);
    assert_eq!(m.total_yes_amount, before.total_yes_amount);
    assert_eq!(m.yes_bettors.len(), before.yes_bettors.len());
    resolve_market(&mut m, id(1), Outcome::Yes).unwrap();
    assert_eq!(
        resolve_market(&mut m, id(3), Outcome::No),
        Err(BettingError::UnauthorizedAccess)
    );
    assert_eq!(m.outcome, Outcome::Yes);
}

#[test]
fn second_claim_is_not_a_winner() {
    let mut m = open_market();
    place_bet(&mut m, id(2), Outcome::Yes, 100).unwrap();
    place_bet(&mut m, id(3), Outcome::No, 50).unwrap();
    resolve_market(&mut m, id(1), Outcome::Yes).unwrap();
    assert_eq!(claim_winnings(&mut m, id(2), 150), Ok(150));
    assert_eq!(claim_winnings(&mut m, id(2), 150), Err(BettingError::NotAWinner));
    assert_eq!(claim_winnings(&mut m, id(3), 150), Err(BettingError::NotAWinner));
}

fn payout_example_market() -> Market {
    let mut m = open_market();
    place_bet(&mut m, id(10), Outcome::Yes, 150).unwrap();
    place_bet(&mut m, id(11), Outcome::Yes, 150).unwrap();
    place_bet(&mut m, id(12), Outcome::No, 100).unwrap();
    resolve_market(&mut m, id(1), Outcome::Yes).unwrap();
    assert_eq!(m.total_yes_amount, 300);
    assert_eq!(m.total_no_amount, 100);
    m
}

#[test]
fn payout_example_uses_live_totals() {
    let mut m = payout_example_market();
    assert_eq!(claim_winnings(&mut m, id(10), 1000), Ok(200));
    assert_eq!(m.total_yes_amount, 150);
    assert_eq!(m.total_no_amount, 100);
    assert_eq!(m.total_yes_amount, sum(&m.yes_bettors));
    // the second winner divides the unchanged losing pool by the smaller winning total
    assert_eq!(claim_winnings(&mut m, id(11), 1000), Ok(250));
    assert_eq!(m.total_yes_amount, 0);
    assert!(m.yes_bettors.is_empty());
    assert_eq!(m.total_no_amount, sum(&m.no_bettors));
}

#[test]
fn payout_example_against_deposited_custody() {
    let mut m = payout_example_market();
    let mut custody: u64 = 400;
    let paid = claim_winnings(&mut m, id(10), custody).unwrap();
    assert_eq!(paid, 200);
    custody -= paid;
    assert_eq!(
        claim_winnings(&mut m, id(11), custody),
        Err(BettingError::InsufficientFunds)
    );
    assert_eq!(m.yes_bettors.len(), 1);
    assert_eq!(m.total_yes_amount, 150);
}

#[test]
fn same_side_stakes_aggregate() {
    let mut m = open_market();
    place_bet(&mut m, id(2), Outcome::Yes, 40).unwrap();
    place_bet(&mut m, id(2), Outcome::Yes, 60).unwrap();
    assert_eq!(m.yes_bettors.len(), 1);
    assert!(m.yes_bettors[0].bettor.same_as(&id(2)));
    assert_eq!(m.yes_bettors[0].amount, 100);
    assert_eq!(m.total_yes_amount, 100);
    place_bet(&mut m, id(2), Outcome::No, 5).unwrap();
    assert_eq!(m.yes_bettors.len(), 1);
    assert_eq!(m.no_bettors.len(), 1);
}

#[test]
fn undecided_is_rejected() {
    let mut m = open_market();
    assert_eq!(
        place_bet(&mut m, id(2), Outcome::Undecided, 10),
        Err(BettingError::InvalidBetChoice)
    );
    assert_eq!(
        resolve_market(&mut m, id(1), Outcome::Undecided),
        Err(BettingError::InvalidOutcome)
    );
    assert!(!m.resolved);
    assert_eq!(m.total_yes_amount, 0);
    assert!(m.yes_bettors.is_empty() && m.no_bettors.is_empty());
}

#[test]
fn claim_beyond_custody_is_refused() {
    let mut m = open_market();
    place_bet(&mut m, id(2), Outcome::No, 30).unwrap();
    place_bet(&mut m, id(3), Outcome::Yes, 60).unwrap();
    resolve_market(&mut m, id(1), Outcome::No).unwrap();
    assert_eq!(
        claim_winnings(&mut m, id(2), 89),
        Err(BettingError::InsufficientFunds)
    );
    assert_eq!(m.no_bettors.len(), 1);
    assert_eq!(m.total_no_amount, 30);
    assert_eq!(claim_winnings(&mut m, id(2), 90), Ok(90));
    assert_eq!(m.total_no_amount, 0);
    assert_eq!(m.total_yes_amount, 60);
}

#[test]
fn zero_amount_is_invalid() {
    let mut m = open_market();
    assert_eq!(
        place_bet(&mut m, id(2), Outcome::Yes, 0),
        Err(BettingError::InvalidBetAmount)
    );
}

#[test]
fn total_overflow_is_refused() {
    let mut m = open_market();
    place_bet(&mut m, id(2), Outcome::Yes, u64::MAX).unwrap();
    assert_eq!(
        place_bet(&mut m, id(3), Outcome::Yes, 1),
        Err(BettingError::OverflowError)
    );
    assert_eq!(m.total_yes_amount, u64::MAX);
    assert_eq!(m.yes_bettors.len(), 1);
    place_bet(&mut m, id(3), Outcome::No, u64::MAX).unwrap();
}

#[test]
fn full_ledger_refuses_new_bettor() {
    let mut m = open_market();
    for n in 0..LEDGER_CAPACITY as u8 {
        place_bet(&mut m, id(100 + n), Outcome::No, 1).unwrap();
    }
    assert_eq!(
        place_bet(&mut m, id(200), Outcome::No, 1),
        Err(BettingError::LedgerFull)
    );
    assert_eq!(m.no_bettors.len(), LEDGER_CAPACITY);
    assert_eq!(place_bet(&mut m, id(100), Outcome::No, 4), Ok(()));
    assert_eq!(m.no_bettors[0].amount, 5);
    assert_eq!(place_bet(&mut m, id(200), Outcome::Yes, 1), Ok(()));
}

#[test]
fn claim_before_resolution_fails() {
    let mut m = open_market();
    place_bet(&mut m, id(2), Outcome::Yes, 10).unwrap();
    assert_eq!(
        claim_winnings(&mut m, id(2), 100),
        Err(BettingError::MarketNotResolved)
    );
}

#[test]
fn payout_overflow_is_refused() {
    let mut m = open_market();
    place_bet(&mut m, id(2), Outcome::Yes, 1 << 40).unwrap();
    place_bet(&mut m, id(3), Outcome::No, 1 << 40).unwrap();
    resolve_market(&mut m, id(1), Outcome::Yes).unwrap();
    assert_eq!(
        claim_winnings(&mut m, id(2), u64::MAX),
        Err(BettingError::OverflowError)
    );
    assert_eq!(m.yes_bettors.len(), 1);
}

#[test]
fn compute_winnings_formula() {
    assert_eq!(compute_winnings(150, 300, 100), Some(200));
    assert_eq!(compute_winnings(1, 3, 2), Some(1));
    assert_eq!(compute_winnings(2, 3, 2), Some(3));
    assert_eq!(compute_winnings(7, 0, 100), Some(7));
    assert_eq!(compute_winnings(5, 5, 0), Some(5));
    assert_eq!(compute_winnings(u64::MAX, 0, 5), Some(u64::MAX));
    assert_eq!(compute_winnings(1 << 40, 1 << 40, 1 << 40), None);
    assert_eq!(compute_winnings(u64::MAX, u64::MAX, 1), None);
}

#[test]
fn find_bettor_by_identity() {
    let ledger = vec![
        Bettor { bettor: id(4), amount: 1 },
        Bettor { bettor: id(5), amount: 2 },
    ];
    assert_eq!(find_bettor(&ledger, &id(5)), Some(1));
    assert_eq!(find_bettor(&ledger, &id(4)), Some(0));
    assert_eq!(find_bettor(&ledger, &id(6)), None);
    assert_eq!(find_bettor(&Vec::new(), &id(6)), None);
}

#[test]
fn well_formedness_check() {
    let mut m = open_market();
    assert!(m.is_well_formed());
    place_bet(&mut m, id(2), Outcome::Yes, 10).unwrap();
    assert!(m.is_well_formed());
    let mut broken = m.clone();
    broken.total_yes_amount = 11;
    assert!(!broken.is_well_formed());
    let mut twice = m.clone();
    twice.yes_bettors.push(Bettor { bettor: id(2), amount: 0 });
    assert!(!twice.is_well_formed());
    let mut undecided = m.clone();
    undecided.resolved = true;
    assert!(!undecided.is_well_formed());
    let mut long = m.clone();
    long.question = "q".repeat(QUESTION_MAX_LEN + 1);
    assert!(!long.is_well_formed());
    let mut huge = open_market();
    huge.no_bettors.push(Bettor { bettor: id(3), amount: u64::MAX });
    huge.no_bettors.push(Bettor { bettor: id(4), amount: 1 });
    huge.total_no_amount = 0;
    assert!(!huge.is_well_formed());
}

#[test]
fn full_ledger_comes_before_total_overflow() {
    let mut m = open_market();
    place_bet(&mut m, id(100), Outcome::Yes, u64::MAX - 19).unwrap();
    for n in 1..LEDGER_CAPACITY as u8 {
        place_bet(&mut m, id(100 + n), Outcome::Yes, 1).unwrap();
    }
    assert_eq!(m.total_yes_amount, u64::MAX);
    assert_eq!(
        place_bet(&mut m, id(200), Outcome::Yes, 1),
        Err(BettingError::LedgerFull)
    );
    assert_eq!(
        place_bet(&mut m, id(101), Outcome::Yes, 1),
        Err(BettingError::OverflowError)
    );
    assert_eq!(m.yes_bettors.len(), LEDGER_CAPACITY);
}

#[test]
fn question_bound_counts_bytes() {
    let m = create_market(id(1), "\u{e9}".repeat(QUESTION_MAX_LEN / 2));
    assert_eq!(m.question.len(), QUESTION_MAX_LEN);
    assert!(m.is_well_formed());
    let mut wide = m.clone();
    wide.question = "\u{e9}".repeat(150);
    assert_eq!(wide.question.chars().count(), 150);
    assert!(!wide.is_well_formed());
}

#[test]
fn claim_stays_spent_after_other_calls() {
    let mut m = open_market();
    place_bet(&mut m, id(2), Outcome::Yes, 30).unwrap();
    place_bet(&mut m, id(3), Outcome::Yes, 10).unwrap();
    place_bet(&mut m, id(4), Outcome::No, 20).unwrap();
    resolve_market(&mut m, id(1), Outcome::Yes).unwrap();
    assert_eq!(claim_winnings(&mut m, id(2), 60), Ok(45));
    assert_eq!(
        place_bet(&mut m, id(2), Outcome::Yes, 5),
        Err(BettingError::MarketAlreadyResolved)
    );
    assert_eq!(
        resolve_market(&mut m, id(1), Outcome::Yes),
        Err(BettingError::MarketAlreadyResolved)
    );
    assert_eq!(
        claim_winnings(&mut m, id(3), 15),
        Err(BettingError::InsufficientFunds)
    );
    assert_eq!(claim_winnings(&mut m, id(3), 30), Ok(30));
    assert_eq!(claim_winnings(&mut m, id(2), 1000), Err(BettingError::NotAWinner));
}
