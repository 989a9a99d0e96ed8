//! A voting ledger: polls and candidates kept at derived addresses, and the
//! transitions that create them and cast votes, with the tally invariants
//! proved.

pub mod address;
pub mod records;
pub mod ledger;
pub mod laws;
pub mod codec;
