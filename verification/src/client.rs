use vstd::prelude::*;

verus! {

/// A request for one transaction, by its hash.
#[derive(Debug, Clone)]
pub struct GetTransactionRequest {
    pub tx_hash: String,
}

impl GetTransactionRequest {
    /// A request for the transaction with hash `tx_hash`.
    pub fn new(tx_hash: String) -> (r: Self)
        ensures
            r.tx_hash == tx_hash,
    {
        GetTransactionRequest { tx_hash }
    }
}

} // verus!
