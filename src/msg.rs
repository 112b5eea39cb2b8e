use crate::state::{Coin, ShortLink, Website};
use vstd::prelude::*;

verus! {

#[derive(Debug)]
pub struct InstantiateMsg {
    pub managers: Option<Vec<String>>,
    pub cost: Option<Coin>,
    /// Blocks a site lasts before it lapses into its grace period; `None` or
    /// `Some(0)` keeps sites forever.
    pub period: Option<u64>,
    /// False for chains without a clock module.
    pub using_clock: bool,
}

#[derive(Debug)]
pub enum ExecuteMsg {
    NewWebsite { name: String, source: String },
    ExpireOld {},
    /// Managers only.
    Remove { name: String },
    CreateShortLink { url: String },
}

#[derive(Debug)]
pub enum QueryMsg {
    GetWebsite { name: String },
    GetShortLink { hash: String },
}

/// The sender of a message and the funds sent with it.
#[derive(Debug)]
pub struct MessageInfo {
    pub sender: String,
    pub funds: Vec<Coin>,
}

/// What a successful execution reports.
#[derive(Debug)]
pub enum ExecuteOutcome {
    Done,
    ShortLinkCreated { hash: String },
}

/// What a successful query returns.
#[derive(Debug)]
pub enum QueryAnswer {
    Website(Website),
    ShortLink(ShortLink),
}

} // verus!
