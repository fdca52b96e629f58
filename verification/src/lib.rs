//! A multi-asset basket accounting engine together with a deploy-or-refund
//! saga for provisioning new basket instances.
//!
//! The `token_set` half lets an account lock proportional amounts of several
//! tracked assets and mint a single derivative unit standing for that basket,
//! with a configurable fee split diverted to the basket owner and a platform
//! beneficiary, and the symmetric unwind operation.
//!
//! The `deployer` half escrows a fixed deposit up front for each requested
//! instance and compensates (refunds the escrow, retracts the pending record)
//! when the external provisioning action chain reports failure.

pub mod arith;
pub mod deployer;
pub mod fees;
pub mod internal_ledger;
pub mod shared;
pub mod store;
pub mod token_ledger;
pub mod token_set;
pub mod token_set_info;
