use vstd::prelude::*;

verus! {

/// Where a ledger transaction stands.
#[derive(Debug, Clone, Copy, PartialEq, Eq, Structural)]
pub enum TransactionStatus {
    Pending,
    Confirmed,
    Failed,
    Rejected,
    Expired,
}

} // verus!
