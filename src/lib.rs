//! Pre-flight provisioning for a transaction load-testing harness: signer
//! derivation, balance checks, funding plans and cost-gated deploy/setup.

pub mod amount;
pub mod balance;
pub mod cost;
pub mod error;
pub mod plan;
pub mod registry;
pub mod signer;
pub mod workflow;
