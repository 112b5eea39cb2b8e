use crate::error::ContractError;
use crate::expiry::{
    ascending, buckets_map, due_names, holds_name, not_due, scheduled, ExpireTimes, ExpiryIndex,
};
use crate::msg::{ExecuteMsg, ExecuteOutcome, InstantiateMsg, MessageInfo, QueryAnswer, QueryMsg};
use crate::shortcode::{generate_hash, short_code};
use crate::state::{Coin, Config, ShortLink, Website};
use crate::store::{entries_map, unique_keys, KeyedStore};
use vstd::prelude::*;

verus! {

/// The registry's state as mathematical values.
pub struct RegistryView {
    pub config: Config,
    /// Sites by name.
    pub websites: Map<Seq<char>, Website>,
    /// Names scheduled to lapse, by block height, in scheduling order.
    pub expire_times: Map<u64, Seq<Seq<char>>>,
    /// Short links by code.
    pub short_links: Map<Seq<char>, ShortLink>,
}

/// `sender` is one of the configured managers.
pub open spec fn is_manager_spec(config: Config, sender: Seq<char>) -> bool {
    match config.manager {
        Some(m) => exists|i: int| 0 <= i < m@.len() && m@[i]@ == sender,
        None => false,
    }
}

/// `funds` holds a coin equal to `cost`.
pub open spec fn pays(funds: Seq<Coin>, cost: Coin) -> bool {
    exists|i: int| 0 <= i < funds.len() && funds[i].denom@ == cost.denom@ && funds[i].amount == cost.amount
}

/// The funds sent meet the configured cost, if there is one.
pub open spec fn funded(config: Config, funds: Seq<Coin>) -> bool {
    match config.cost {
        Some(c) => pays(funds, c),
        None => true,
    }
}

/// The state after site `w` is registered as `name` and, when sites lapse,
/// scheduled to lapse one period after its creation.
pub open spec fn with_website(s: RegistryView, name: Seq<char>, w: Website) -> RegistryView {
    RegistryView {
        websites: s.websites.insert(name, w),
        expire_times: if s.config.period == 0 {
            s.expire_times
        } else {
            scheduled(s.expire_times, name, (w.created_height + s.config.period) as u64)
        },
        ..s
    }
}

/// A new site record, not in its grace period.
pub open spec fn fresh_website(creator: String, source: String, height: u64) -> Website {
    Website { creator, source, created_height: height, in_grace_period: false }
}

/// The same site, in its grace period.
pub open spec fn lapsed(w: Website) -> Website {
    Website {
        creator: w.creator,
        source: w.source,
        created_height: w.created_height,
        in_grace_period: true,
    }
}

/// Every site whose name is in `due` moved into its grace period.
pub open spec fn graced(m: Map<Seq<char>, Website>, due: Set<Seq<char>>) -> Map<Seq<char>, Website> {
    Map::new(
        |k: Seq<char>| m.contains_key(k),
        |k: Seq<char>|
            if due.contains(k) {
                lapsed(m[k])
            } else {
                m[k]
            },
    )
}

/// Every name due at `now` belongs to a registered site.
pub open spec fn sweep_consistent(s: RegistryView, now: u64) -> bool {
    forall|n: Seq<char>|
        #![trigger due_names(s.expire_times, now).contains(n)]
        due_names(s.expire_times, now).contains(n) ==> s.websites.contains_key(n)
}

/// The state after a successful sweep at `now`.
pub open spec fn swept(s: RegistryView, now: u64) -> RegistryView {
    RegistryView {
        websites: graced(s.websites, due_names(s.expire_times, now)),
        expire_times: not_due(s.expire_times, now),
        ..s
    }
}

/// The state after a short link for `url` is stored under `code`, replacing
/// whatever was stored there.
pub open spec fn with_short_link(
    s: RegistryView,
    code: Seq<char>,
    creator: String,
    url: String,
    height: u64,
) -> RegistryView {
    RegistryView {
        short_links: s.short_links.insert(
            code,
            ShortLink { creator, original_url: url, created_height: height },
        ),
        ..s
    }
}

/// Creating site `name` at `height`: refused if the name is taken, then if the
/// configured cost was not sent; otherwise the site is registered.
pub open spec fn new_website_post(
    s: RegistryView,
    height: u64,
    info: MessageInfo,
    name: String,
    source: String,
    t: RegistryView,
    r: Result<ExecuteOutcome, ContractError>,
) -> bool {
    if s.websites.contains_key(name@) {
        r == Err::<ExecuteOutcome, ContractError>(ContractError::AlreadyExists { name }) && t == s
    } else if !funded(s.config, info.funds@) {
        r == Err::<ExecuteOutcome, ContractError>(
            ContractError::NotEnoughFunds { required: s.config.cost.unwrap() },
        ) && t == s
    } else {
        r == Ok::<ExecuteOutcome, ContractError>(ExecuteOutcome::Done) && t == with_website(
            s,
            name@,
            fresh_website(info.sender, source, height),
        )
    }
}

/// Sweeping at `now`: refused when sites never lapse, failed without change when
/// a due name has no site; otherwise every due bucket is dropped and its sites
/// enter their grace period.
pub open spec fn expire_old_post(
    s: RegistryView,
    now: u64,
    t: RegistryView,
    r: Result<ExecuteOutcome, ContractError>,
) -> bool {
    if s.config.period == 0 {
        r == Err::<ExecuteOutcome, ContractError>(ContractError::NoExpirationPeriod {}) && t == s
    } else if sweep_consistent(s, now) {
        r == Ok::<ExecuteOutcome, ContractError>(ExecuteOutcome::Done) && t == swept(s, now)
    } else {
        t == s && match r {
            Err(ContractError::StorageConsistency { name }) => due_names(
                s.expire_times,
                now,
            ).contains(name@) && !s.websites.contains_key(name@),
            _ => false,
        }
    }
}

/// Removing site `name`: managers only; removing an absent name succeeds.
pub open spec fn remove_post(
    s: RegistryView,
    sender: Seq<char>,
    name: Seq<char>,
    t: RegistryView,
    r: Result<ExecuteOutcome, ContractError>,
) -> bool {
    if is_manager_spec(s.config, sender) {
        r == Ok::<ExecuteOutcome, ContractError>(ExecuteOutcome::Done) && t == RegistryView {
            websites: s.websites.remove(name),
            ..s
        }
    } else {
        r == Err::<ExecuteOutcome, ContractError>(ContractError::Unauthorized {}) && t == s
    }
}

/// Creating a short link always succeeds and reports its code.
pub open spec fn short_link_post(
    s: RegistryView,
    height: u64,
    sender: String,
    url: String,
    t: RegistryView,
    code: String,
) -> bool {
    code@ == short_code(sender@, height, url@) && t == with_short_link(
        s,
        code@,
        sender,
        url,
        height,
    )
}

/// What executing `msg` at `height` from `info` does.
pub open spec fn execute_post(
    s: RegistryView,
    height: u64,
    info: MessageInfo,
    msg: ExecuteMsg,
    t: RegistryView,
    r: Result<ExecuteOutcome, ContractError>,
) -> bool {
    match msg {
        ExecuteMsg::NewWebsite { name, source } => new_website_post(s, height, info, name, source, t, r),
        ExecuteMsg::ExpireOld {  } => expire_old_post(s, height, t, r),
        ExecuteMsg::Remove { name } => remove_post(s, info.sender@, name@, t, r),
        ExecuteMsg::CreateShortLink { url } => match r {
            Ok(ExecuteOutcome::ShortLinkCreated { hash }) => short_link_post(
                s,
                height,
                info.sender,
                url,
                t,
                hash,
            ),
            _ => false,
        },
    }
}

/// A site's creation can be scheduled: its lapse height fits in a `u64`.
pub open spec fn schedulable(config: Config, height: u64) -> bool {
    config.period == 0 || height + config.period <= u64::MAX
}

/// A registry of named sites with lapse scheduling, plus a store of short links.
pub struct Registry {
    config: Config,
    websites: KeyedStore<Website>,
    expire_times: ExpiryIndex,
    short_links: KeyedStore<ShortLink>,
}

impl View for Registry {
    type V = RegistryView;

    closed spec fn view(&self) -> RegistryView {
        RegistryView {
            config: self.config,
            websites: self.websites@,
            expire_times: self.expire_times@,
            short_links: self.short_links@,
        }
    }
}

/// Moves the site `name`, which must exist, into its grace period.
fn lapse(websites: &mut KeyedStore<Website>, name: &String)
    requires
        old(websites).well_formed(),
        old(websites)@.contains_key(name@),
    ensures
        final(websites).well_formed(),
        final(websites)@ == old(websites)@.insert(name@, lapsed(old(websites)@[name@])),
{
    let updated = match websites.get(name) {
        Some(w) => Website {
            creator: w.creator.clone(),
            source: w.source.clone(),
            created_height: w.created_height,
            in_grace_period: true,
        },
        None => {
            return ;
        },
    };
    websites.insert(name.clone(), updated);
}

/// Whether `sender` is one of the managers in `config`.
fn is_manager(config: &Config, sender: &String) -> (r: bool)
    ensures
        r == is_manager_spec(*config, sender@),
{
    match &config.manager {
        Some(managers) => {
            let mut i: usize = 0;
            while i < managers.len()
                invariant
                    i <= managers@.len(),
                    config.manager == Some(*managers),
                    forall|j: int| 0 <= j < i ==> managers@[j]@ != sender@,
                decreases managers@.len() - i,
            {
                if managers[i] == *sender {
                    assert(managers@[i as int]@ == sender@);
                    let ghost m = config.manager.unwrap();
                    assert(m@[i as int]@ == sender@);
                    assert(is_manager_spec(*config, sender@));
                    return true;
                }
                i = i + 1;
            }
            false
        },
        None => false,
    }
}

/// Whether `funds` holds a coin equal to `cost`.
fn has_coin(funds: &Vec<Coin>, cost: &Coin) -> (r: bool)
    ensures
        r == pays(funds@, *cost),
{
    let mut i: usize = 0;
    while i < funds.len()
        invariant
            i <= funds@.len(),
            forall|j: int|
                0 <= j < i ==> !(funds@[j].denom@ == cost.denom@ && funds@[j].amount == cost.amount),
        decreases funds@.len() - i,
    {
        if funds[i].denom == cost.denom && funds[i].amount == cost.amount {
            return true;
        }
        i = i + 1;
    }
    false
}

impl Registry {
    /// The stores keep their keys unique and the expiry buckets ordered.
    pub closed spec fn well_formed(&self) -> bool {
        self.websites.well_formed() && self.expire_times.well_formed()
            && self.short_links.well_formed()
    }

    /// A registry holding the given settings and stored entries, or `None`
    /// when a name or code repeats or bucket heights do not rise strictly.
    pub fn from_parts(
        config: Config,
        websites: Vec<(String, Website)>,
        buckets: Vec<(u64, ExpireTimes)>,
        links: Vec<(String, ShortLink)>,
    ) -> (r: Option<Registry>)
        ensures
            match r {
                Some(reg) => reg.well_formed() && reg@ == (RegistryView {
                    config,
                    websites: entries_map(websites@),
                    expire_times: buckets_map(buckets@),
                    short_links: entries_map(links@),
                }),
                None => !(unique_keys(websites@) && ascending(buckets@) && unique_keys(links@)),
            },
    {
        let websites = match KeyedStore::from_entries(websites) {
            Some(st) => st,
            None => return None,
        };
        let expire_times = match ExpiryIndex::from_buckets(buckets) {
            Some(ix) => ix,
            None => return None,
        };
        let short_links = match KeyedStore::from_entries(links) {
            Some(st) => st,
            None => return None,
        };
        Some(Registry { config, websites, expire_times, short_links })
    }

    /// The settings and stored entries, for persisting.
    pub fn into_parts(self) -> (r: (
        Config,
        Vec<(String, Website)>,
        Vec<(u64, ExpireTimes)>,
        Vec<(String, ShortLink)>,
    ))
        requires
            self.well_formed(),
        ensures
            r.0 == self@.config,
            unique_keys(r.1@) && entries_map(r.1@) == self@.websites,
            ascending(r.2@) && buckets_map(r.2@) == self@.expire_times,
            unique_keys(r.3@) && entries_map(r.3@) == self@.short_links,
    {
        let Registry { config, websites, expire_times, short_links } = self;
        (config, websites.into_entries(), expire_times.into_buckets(), short_links.into_entries())
    }

    pub fn config(&self) -> (r: &Config)
        ensures
            *r == self@.config,
    {
        &self.config
    }

    /// Registers site `name` with `source`, created by the sender at `height`.
    pub fn new_website(&mut self, height: u64, info: MessageInfo, name: String, source: String) -> (r:
        Result<ExecuteOutcome, ContractError>)
        requires
            old(self).well_formed(),
            schedulable(old(self)@.config, height),
        ensures
            final(self).well_formed(),
            new_website_post(old(self)@, height, info, name, source, final(self)@, r),
    {
        if self.websites.contains_key(&name) {
            return Err(ContractError::AlreadyExists { name });
        }
        if let Some(cost) = &self.config.cost {
            if !has_coin(&info.funds, cost) {
                return Err(ContractError::NotEnoughFunds { required: cost.duplicate() });
            }
        }
        if self.config.period != 0 {
            self.expire_times.schedule(name.clone(), height + self.config.period);
        }
        let website = Website {
            creator: info.sender,
            source,
            created_height: height,
            in_grace_period: false,
        };
        self.websites.insert(name, website);
        Ok(ExecuteOutcome::Done)
    }

    /// Drops every expiry bucket strictly below `now` and moves the sites it
    /// names into their grace period; changes nothing when a due name has no site.
    pub fn check_expirations(&mut self, now: u64) -> (r: Result<ExecuteOutcome, ContractError>)
        requires
            old(self).well_formed(),
            old(self)@.config.period != 0,
        ensures
            final(self).well_formed(),
            expire_old_post(old(self)@, now, final(self)@, r),
    {
        let due = self.expire_times.due(now);
        let ghost s = self@;
        let mut i: usize = 0;
        while i < due.len()
            invariant
                i <= due@.len(),
                self.well_formed(),
                self@ == s,
                s == old(self)@,
                s.config.period != 0,
                forall|n: Seq<char>| #[trigger]
                    due_names(s.expire_times, now).contains(n) <==> holds_name(due@, n),
                forall|k: int| 0 <= k < i ==> s.websites.contains_key(#[trigger] due@[k]@),
            decreases due@.len() - i,
        {
            if !self.websites.contains_key(&due[i]) {
                assert(holds_name(due@, due@[i as int]@));
                assert(due_names(s.expire_times, now).contains(due@[i as int]@));
                assert(!sweep_consistent(s, now));
                return Err(ContractError::StorageConsistency { name: due[i].clone() });
            }
            i = i + 1;
        }
        assert(sweep_consistent(s, now)) by {
            assert forall|n: Seq<char>| #[trigger]
                due_names(s.expire_times, now).contains(n) implies s.websites.contains_key(n) by {
                assert(holds_name(due@, n));
                let k = choose|k: int| 0 <= k < due@.len() && due@[k]@ == n;
                assert(s.websites.contains_key(due@[k]@));
            }
        }
        self.expire_times.drop_due(now);
        let ghost w0 = s.websites;
        let mut i: usize = 0;
        while i < due.len()
            invariant
                i <= due@.len(),
                self.well_formed(),
                self@.config == s.config,
                self@.expire_times == not_due(s.expire_times, now),
                self@.short_links == s.short_links,
                w0 == s.websites,
                s == old(self)@,
                sweep_consistent(s, now),
                forall|n: Seq<char>| #[trigger]
                    due_names(s.expire_times, now).contains(n) <==> holds_name(due@, n),
                self@.websites == graced(
                    w0,
                    Set::new(|n: Seq<char>| exists|k: int| 0 <= k < i && due@[k]@ == n),
                ),
            decreases due@.len() - i,
        {
            let ghost before = self@.websites;
            let ghost done = Set::new(|n: Seq<char>| exists|k: int| 0 <= k < i && due@[k]@ == n);
            let ghost name = due@[i as int]@;
            assert(holds_name(due@, name));
            assert(due_names(s.expire_times, now).contains(name));
            assert(w0.contains_key(name));
            lapse(&mut self.websites, &due[i]);
            i = i + 1;
            let ghost next = Set::new(|n: Seq<char>| exists|k: int| 0 <= k < i && due@[k]@ == n);
            assert(next =~= done.insert(name)) by {
                assert forall|n: Seq<char>| next.contains(n) implies done.insert(name).contains(n) by {
                    let k = choose|k: int| 0 <= k < i && due@[k]@ == n;
                    if k < i - 1 {
                        assert(done.contains(n));
                    }
                }
                assert forall|n: Seq<char>| done.insert(name).contains(n) implies next.contains(n) by {
                    if n == name {
                        assert(due@[i - 1]@ == n);
                    } else {
                        let k = choose|k: int| 0 <= k < i - 1 && due@[k]@ == n;
                        assert(due@[k]@ == n);
                    }
                }
            }
            assert(self@.websites =~= graced(w0, next));
        }
        let ghost all = Set::new(|n: Seq<char>| exists|k: int| 0 <= k < due@.len() && due@[k]@ == n);
        assert(all =~= due_names(s.expire_times, now)) by {
            assert forall|n: Seq<char>| all.contains(n) <==> due_names(s.expire_times, now).contains(n) by {
                if all.contains(n) {
                    assert(holds_name(due@, n));
                }
                if due_names(s.expire_times, now).contains(n) {
                    assert(holds_name(due@, n));
                }
            }
        }
        assert(self@ == swept(s, now));
        Ok(ExecuteOutcome::Done)
    }

    /// Sweeps the expiry index at `now`; refused when sites never lapse.
    pub fn expire_old(&mut self, now: u64) -> (r: Result<ExecuteOutcome, ContractError>)
        requires
            old(self).well_formed(),
        ensures
            final(self).well_formed(),
            expire_old_post(old(self)@, now, final(self)@, r),
    {
        if self.config.period == 0 {
            return Err(ContractError::NoExpirationPeriod {});
        }
        self.check_expirations(now)
    }

    /// Removes site `name` when the sender is a manager.
    pub fn remove(&mut self, sender: &String, name: &String) -> (r: Result<ExecuteOutcome, ContractError>)
        requires
            old(self).well_formed(),
        ensures
            final(self).well_formed(),
            remove_post(old(self)@, sender@, name@, final(self)@, r),
    {
        if !is_manager(&self.config, sender) {
            return Err(ContractError::Unauthorized {});
        }
        self.websites.remove(name);
        Ok(ExecuteOutcome::Done)
    }

    /// Stores a short link for `url` under its code, replacing any link stored
    /// under the same code, and returns the code.
    pub fn create_short_link(&mut self, height: u64, sender: String, url: String) -> (r: String)
        requires
            old(self).well_formed(),
        ensures
            final(self).well_formed(),
            short_link_post(old(self)@, height, sender, url, final(self)@, r),
    {
        let hash = generate_hash(sender.as_str(), height, url.as_str());
        let link = ShortLink { creator: sender, original_url: url, created_height: height };
        self.short_links.insert(hash.clone(), link);
        hash
    }

    /// The site registered as `name`.
    pub fn query_website(&self, name: String) -> (r: Result<Website, ContractError>)
        requires
            self.well_formed(),
        ensures
            self@.websites.contains_key(name@) ==> r == Ok::<Website, ContractError>(
                self@.websites[name@],
            ),
            !self@.websites.contains_key(name@) ==> r == Err::<Website, ContractError>(
                ContractError::WebsiteNotFound { name },
            ),
    {
        match self.websites.get(&name) {
            Some(w) => Ok(w.duplicate()),
            None => Err(ContractError::WebsiteNotFound { name }),
        }
    }

    /// The short link stored under `hash`.
    pub fn query_short_link(&self, hash: String) -> (r: Result<ShortLink, ContractError>)
        requires
            self.well_formed(),
        ensures
            self@.short_links.contains_key(hash@) ==> r == Ok::<ShortLink, ContractError>(
                self@.short_links[hash@],
            ),
            !self@.short_links.contains_key(hash@) ==> r == Err::<ShortLink, ContractError>(
                ContractError::ShortLinkNotFound { hash },
            ),
    {
        match self.short_links.get(&hash) {
            Some(l) => Ok(l.duplicate()),
            None => Err(ContractError::ShortLinkNotFound { hash }),
        }
    }
}

/// A registry with the settings of `msg` and nothing stored; an absent period
/// means sites never lapse.
pub fn instantiate(msg: InstantiateMsg) -> (r: Registry)
    ensures
        r.well_formed(),
        r@ == (RegistryView {
            config: Config {
                manager: msg.managers,
                cost: msg.cost,
                period: match msg.period {
                    Some(p) => p,
                    None => 0,
                },
            },
            websites: Map::empty(),
            expire_times: Map::empty(),
            short_links: Map::empty(),
        }),
{
    let period: u64 = match msg.period {
        Some(p) => p,
        None => 0,
    };
    Registry {
        config: Config { manager: msg.managers, cost: msg.cost, period },
        websites: KeyedStore::new(),
        expire_times: ExpiryIndex::new(),
        short_links: KeyedStore::new(),
    }
}

/// Executes `msg`, sent by `info` at block `height`.
pub fn execute(registry: &mut Registry, height: u64, info: MessageInfo, msg: ExecuteMsg) -> (r:
    Result<ExecuteOutcome, ContractError>)
    requires
        old(registry).well_formed(),
        msg is NewWebsite ==> schedulable(old(registry)@.config, height),
    ensures
        final(registry).well_formed(),
        execute_post(old(registry)@, height, info, msg, final(registry)@, r),
{
    match msg {
        ExecuteMsg::NewWebsite { name, source } => registry.new_website(height, info, name, source),
        ExecuteMsg::ExpireOld {  } => registry.expire_old(height),
        ExecuteMsg::Remove { name } => registry.remove(&info.sender, &name),
        ExecuteMsg::CreateShortLink { url } => {
            let hash = registry.create_short_link(height, info.sender, url);
            Ok(ExecuteOutcome::ShortLinkCreated { hash })
        },
    }
}

/// Answers `msg` from the registry's state.
pub fn query(registry: &Registry, msg: QueryMsg) -> (r: Result<QueryAnswer, ContractError>)
    requires
        registry.well_formed(),
    ensures
        match msg {
            QueryMsg::GetWebsite { name } => if registry@.websites.contains_key(name@) {
                r == Ok::<QueryAnswer, ContractError>(
                    QueryAnswer::Website(registry@.websites[name@]),
                )
            } else {
                r == Err::<QueryAnswer, ContractError>(ContractError::WebsiteNotFound { name })
            },
            QueryMsg::GetShortLink { hash } => if registry@.short_links.contains_key(hash@) {
                r == Ok::<QueryAnswer, ContractError>(
                    QueryAnswer::ShortLink(registry@.short_links[hash@]),
                )
            } else {
                r == Err::<QueryAnswer, ContractError>(ContractError::ShortLinkNotFound { hash })
            },
        },
{
    match msg {
        QueryMsg::GetWebsite { name } => match registry.query_website(name) {
            Ok(w) => Ok(QueryAnswer::Website(w)),
            Err(e) => Err(e),
        },
        QueryMsg::GetShortLink { hash } => match registry.query_short_link(hash) {
            Ok(l) => Ok(QueryAnswer::ShortLink(l)),
            Err(e) => Err(e),
        },
    }
}

} // verus!
