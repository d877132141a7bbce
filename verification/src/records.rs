//! The ledger's value types: identities, donation records, and the errors a
//! donation can fail with.

use vstd::prelude::*;

verus! {

/// An opaque, unforgeable account/address reference, used for donor, recipient
/// and asset fields. The ledger never looks inside an identity; it only
/// compares identities for equality, so a plain 64-bit handle carries it.
#[derive(Clone, Copy, Debug, PartialEq, Eq, Structural)]
pub struct Identity(pub u64);

/// Why a `donate` call failed. Either the caller could not prove control of
/// the donor identity, or adding the amount to the recipient's running total
/// would leave the signed 128-bit range. In both cases no state is changed.
#[derive(Clone, Copy, Debug, PartialEq, Eq, Structural)]
pub enum DonationError {
    Unauthorized,
    Overflow,
}

/// One immutable donation fact, created exactly once at append time and never
/// mutated afterward. The amount is deliberately unconstrained: zero and
/// negative amounts are recorded as given.
#[derive(Debug, PartialEq, Eq)]
pub struct DonationRecord {
    pub donor: Identity,
    pub recipient: Identity,
    pub amount: i128,
    pub asset: Identity,
    pub timestamp: u64,
    pub memo: Option<String>,
}

impl Clone for DonationRecord {
    fn clone(&self) -> (r: Self)
        ensures
            r == *self,
    {
        DonationRecord {
            donor: self.donor,
            recipient: self.recipient,
            amount: self.amount,
            asset: self.asset,
            timestamp: self.timestamp,
            memo: match &self.memo {
                Some(text) => Some(text.clone()),
                None => None,
            },
        }
    }
}

} // verus!
