use crate::state::Coin;
use vstd::prelude::*;

verus! {

/// An error that cannot occur.
#[derive(Debug)]
pub struct Never {
    unreachable: core::convert::Infallible,
}

/// Why an operation on the registry failed. A failed operation changes nothing.
#[derive(Debug)]
pub enum ContractError {
    /// The payment that a new site requires was not among the funds sent.
    NotEnoughFunds { required: Coin },
    /// The sender is not a manager.
    Unauthorized {},
    /// A site of that name is already registered.
    AlreadyExists { name: String },
    /// Sites never lapse under this configuration, so there is nothing to sweep.
    NoExpirationPeriod {},
    /// No site is registered under that name.
    WebsiteNotFound { name: String },
    /// No short link is stored under that code.
    ShortLinkNotFound { hash: String },
    /// A due expiry entry names a site that is not registered.
    StorageConsistency { name: String },
}

} // verus!
