//! An account-balance ledger: an identity-keyed store of balances with
//! deposits and transfers that never create, destroy or lose value.

mod entries;
mod ledger;

pub use ledger::{credit, transfer_step, AccountId, Balance, ContractTransfer, LedgerError};
