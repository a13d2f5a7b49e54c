use vstd::prelude::*;

verus! {

/// A participant's 32-byte account identity.
#[derive(Clone, Copy, Debug)]
pub struct Identity {
    pub bytes: [u8; 32],
}

impl Identity {
    pub fn new(bytes: [u8; 32]) -> (r: Identity)
        ensures
            r.bytes == bytes,
    {
        Identity { bytes }
    }

    /// Byte-by-byte comparison of two identities.
    pub fn same_as(&self, other: &Identity) -> (r: bool)
        ensures
            r == (*self == *other),
    {
        let mut i: usize = 0;
        while i < 32
            invariant
                0 <= i <= 32,
                forall|k: int| 0 <= k < i ==> self.bytes@[k] == other.bytes@[k],
            decreases 32 - i,
        {
            if self.bytes[i] != other.bytes[i] {
                return false;
            }
            i = i + 1;
        }
        assert(self.bytes@ =~= other.bytes@);
        proof {
            vstd::array::axiom_array_ext_equal(self.bytes, other.bytes);
        }
        true
    }
}

/// The side of a market, or the outcome it settled on.
#[derive(Clone, Copy, Debug, PartialEq, Eq, Structural)]
pub enum Outcome {
    Undecided,
    Yes,
    No,
}

/// One participant's cumulative stake on one side of a market.
#[derive(Clone, Copy, Debug)]
pub struct Bettor {
    pub bettor: Identity,
    pub amount: u64,
}

/// Why an operation on a market was refused.
#[derive(Clone, Copy, Debug, PartialEq, Eq, Structural)]
pub enum BettingError {
    MarketAlreadyResolved,
    MarketNotResolved,
    InvalidBetAmount,
    InvalidBetChoice,
    InvalidOutcome,
    UnauthorizedAccess,
    NotAWinner,
    InvalidMarketState,
    InsufficientFunds,
    OverflowError,
    LedgerFull,
}

} // verus!
