use crate::amount::Wei;
use vstd::prelude::*;

verus! {

/// The two phases whose cost is gated before they run.
#[derive(Clone, Copy, Debug, PartialEq, Eq, Structural)]
pub enum Phase {
    Deployment,
    Setup,
}

impl Phase {
    /// The phase's name as it appears in reports.
    pub fn label(&self) -> (r: &'static str)
        ensures
            r@ == (match self {
                Phase::Deployment => "deployment"@,
                Phase::Setup => "setup"@,
            }),
    {
        match self {
            Phase::Deployment => "deployment",
            Phase::Setup => "setup",
        }
    }
}

/// Why provisioning stopped.
#[derive(Clone, Debug, PartialEq, Eq)]
pub enum ProvisionError {
    /// The endpoint is not a valid URL.
    InvalidEndpoint,
    /// The minimum balance is not a valid ether amount.
    InvalidAmount,
    /// The private key at this position of the supplied list is malformed.
    InvalidPrivateKey { index: usize },
    /// The setup transaction at this position names a sender whose address is
    /// malformed or whose key was not supplied.
    MissingSenderKey { index: usize },
    /// No signer is available to fund the other accounts.
    NoAdminSigner,
    /// These explicit accounts hold less than the minimum balance.
    InsufficientBalance { accounts: Vec<(Vec<u8>, Wei)> },
    /// A derived key for this pool is not a valid signing key.
    DerivationFailed { pool: String },
    /// The minimum balance does not cover the estimated cost of a phase.
    CostTooHigh { phase: Phase, min_balance: Wei, cost: Wei },
    /// An event arrived that the current stage does not expect.
    UnexpectedEvent,
}

} // verus!
