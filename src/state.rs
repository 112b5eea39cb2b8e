use vstd::prelude::*;

verus! {

/// An amount of one denomination.
#[derive(Debug)]
pub struct Coin {
    pub denom: String,
    pub amount: u128,
}

/// A named site: who created it, its source, and its lifecycle state.
#[derive(Debug)]
pub struct Website {
    pub creator: String,
    pub source: String,
    /// Block height at which the site was created.
    pub created_height: u64,
    pub in_grace_period: bool,
}

/// A short link stored under its code.
#[derive(Debug)]
pub struct ShortLink {
    pub creator: String,
    pub original_url: String,
    pub created_height: u64,
}

/// Settings fixed at instantiation.
#[derive(Debug)]
pub struct Config {
    /// Identities allowed to remove sites; `None` allows nobody.
    pub manager: Option<Vec<String>>,
    /// Payment that must accompany the creation of a site.
    pub cost: Option<Coin>,
    /// Blocks after creation at which a site lapses; 0 means never.
    pub period: u64,
}

impl Coin {
    pub fn duplicate(&self) -> (r: Coin)
        ensures
            r == *self,
    {
        Coin { denom: self.denom.clone(), amount: self.amount }
    }
}

impl Website {
    pub fn duplicate(&self) -> (r: Website)
        ensures
            r == *self,
    {
        Website {
            creator: self.creator.clone(),
            source: self.source.clone(),
            created_height: self.created_height,
            in_grace_period: self.in_grace_period,
        }
    }
}

impl ShortLink {
    pub fn duplicate(&self) -> (r: ShortLink)
        ensures
            r == *self,
    {
        ShortLink {
            creator: self.creator.clone(),
            original_url: self.original_url.clone(),
            created_height: self.created_height,
        }
    }
}

} // verus!
