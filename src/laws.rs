use crate::contract::{
    expire_old_post, graced, lapsed, new_website_post, short_link_post, swept,
    sweep_consistent, funded, RegistryView,
};
use crate::error::ContractError;
use crate::expiry::{due_names, not_due};
use crate::msg::{ExecuteOutcome, MessageInfo};
use crate::shortcode::short_code;
use crate::state::ShortLink;
use vstd::prelude::*;

verus! {

/// A site created under a free name with the cost paid can be read back with
/// its creator and source, not in its grace period.
pub proof fn lemma_create_then_get(
    s: RegistryView,
    height: u64,
    info: MessageInfo,
    name: String,
    source: String,
    t: RegistryView,
    r: Result<ExecuteOutcome, ContractError>,
)
    requires
        !s.websites.contains_key(name@),
        funded(s.config, info.funds@),
        new_website_post(s, height, info, name, source, t, r),
    ensures
        r is Ok,
        t.websites.contains_key(name@),
        t.websites[name@].creator == info.sender,
        t.websites[name@].source == source,
        t.websites[name@].created_height == height,
        !t.websites[name@].in_grace_period,
{
}

/// Once a site is created, creating another under the same name fails with
/// `AlreadyExists` and changes nothing, whether or not a sweep came between.
pub proof fn lemma_name_stays_taken(
    s: RegistryView,
    height: u64,
    info: MessageInfo,
    name: String,
    source: String,
    t: RegistryView,
    r: Result<ExecuteOutcome, ContractError>,
    now: u64,
    u: RegistryView,
    ru: Result<ExecuteOutcome, ContractError>,
    height2: u64,
    info2: MessageInfo,
    source2: String,
    v: RegistryView,
    rv: Result<ExecuteOutcome, ContractError>,
    w: RegistryView,
    rw: Result<ExecuteOutcome, ContractError>,
)
    requires
        new_website_post(s, height, info, name, source, t, r),
        r is Ok,
        new_website_post(t, height2, info2, name, source2, v, rv),
        expire_old_post(t, now, u, ru),
        new_website_post(u, height2, info2, name, source2, w, rw),
    ensures
        rv == Err::<ExecuteOutcome, ContractError>(ContractError::AlreadyExists { name }),
        v == t,
        rw == Err::<ExecuteOutcome, ContractError>(ContractError::AlreadyExists { name }),
        w == u,
{
    assert(t.websites.contains_key(name@));
    if t.config.period != 0 && sweep_consistent(t, now) {
        assert(graced(t.websites, due_names(t.expire_times, now)).contains_key(name@));
    }
}

/// A name scheduled at height `at` is due exactly when the sweep runs at a
/// height strictly above `at`: then its site enters its grace period; at `at`
/// or below, the bucket stays; and a site whose name is in no due bucket is
/// left as it was.
pub proof fn lemma_sweep_boundary(
    s: RegistryView,
    name: Seq<char>,
    at: u64,
    now: u64,
    t: RegistryView,
    r: Result<ExecuteOutcome, ContractError>,
)
    requires
        s.config.period != 0,
        sweep_consistent(s, now),
        s.websites.contains_key(name),
        s.expire_times.contains_key(at),
        s.expire_times[at].contains(name),
        expire_old_post(s, now, t, r),
    ensures
        r is Ok,
        at < now ==> t.websites[name] == lapsed(s.websites[name]),
        now <= at ==> t.expire_times.contains_key(at) && t.expire_times[at] == s.expire_times[at],
        !due_names(s.expire_times, now).contains(name) ==> t.websites[name] == s.websites[name],
{
    if at < now {
        assert(due_names(s.expire_times, now).contains(name));
    }
}

/// A second sweep at the same height changes nothing and reports the same
/// outcome as the first.
pub proof fn lemma_sweep_idempotent(
    s: RegistryView,
    now: u64,
    t: RegistryView,
    r: Result<ExecuteOutcome, ContractError>,
    u: RegistryView,
    r2: Result<ExecuteOutcome, ContractError>,
)
    requires
        expire_old_post(s, now, t, r),
        expire_old_post(t, now, u, r2),
    ensures
        u == t,
        r is Ok ==> r2 is Ok,
{
    if s.config.period != 0 && sweep_consistent(s, now) {
        assert(t == swept(s, now));
        let m = t.expire_times;
        assert(due_names(m, now) =~= Set::<Seq<char>>::empty()) by {
            assert forall|n: Seq<char>| !#[trigger] due_names(m, now).contains(n) by {
                if due_names(m, now).contains(n) {
                    let k = choose|k: u64| k < now && m.contains_key(k) && m[k].contains(n);
                }
            }
        }
        assert(sweep_consistent(t, now));
        assert(graced(t.websites, due_names(m, now)) =~= t.websites);
        assert(not_due(m, now) =~= m);
        assert(swept(t, now) == t);
    }
}

/// Short codes made twice from the same creator, height and value are equal,
/// and short links created from them land under the same code.
pub proof fn lemma_code_deterministic(
    s: RegistryView,
    height: u64,
    sender: String,
    url: String,
    t: RegistryView,
    code1: String,
    u: RegistryView,
    code2: String,
)
    requires
        short_link_post(s, height, sender, url, t, code1),
        short_link_post(t, height, sender, url, u, code2),
    ensures
        code1@ == code2@,
        code1@ == short_code(sender@, height, url@),
        u == t,
{
    assert(u.short_links =~= t.short_links);
}

/// Two short links whose codes coincide: the second replaces the first under
/// that code, and no other code is added.
pub proof fn lemma_short_link_overwrite(
    s: RegistryView,
    height1: u64,
    sender1: String,
    url1: String,
    t: RegistryView,
    code1: String,
    height2: u64,
    sender2: String,
    url2: String,
    u: RegistryView,
    code2: String,
)
    requires
        short_link_post(s, height1, sender1, url1, t, code1),
        short_link_post(t, height2, sender2, url2, u, code2),
        code1@ == code2@,
    ensures
        u.short_links.contains_key(code1@),
        u.short_links[code1@] == (ShortLink {
            creator: sender2,
            original_url: url2,
            created_height: height2,
        }),
        u.short_links.dom() == t.short_links.dom(),
        u.websites == s.websites,
{
    assert(u.short_links.dom() =~= t.short_links.dom());
}

} // verus!
