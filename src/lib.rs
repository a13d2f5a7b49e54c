//! A two-outcome prediction market: a creator opens a market on a question,
//! participants stake native currency on Yes or No, the creator settles the
//! outcome once, and each winner withdraws its stake plus a proportional share
//! of the losing pool.

pub mod types;
pub mod ledger;
pub mod payout;
pub mod market;
pub mod laws;
