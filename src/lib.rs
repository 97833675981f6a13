//! Finalization of a token presale on an account ledger: the presale
//! account's whole balance goes to a recipient and the account is closed.

pub mod address;
pub mod ledger;
pub mod finalize_presale;
