use cw_webhost::contract::{execute, instantiate, query, Registry};
use cw_webhost::error::ContractError;
use cw_webhost::expiry::{ExpireTimes, ExpiryIndex};
use cw_webhost::msg::{ExecuteMsg, ExecuteOutcome, InstantiateMsg, MessageInfo, QueryAnswer, QueryMsg};
use cw_webhost::shortcode::{code_of_digest, generate_hash, hash_input_bytes};
use cw_webhost::state::{Coin, Config, ShortLink, Website};
use cw_webhost::store::KeyedStore;

fn s(x: &str) -> String {
    x.to_string()
}

fn setup(managers: Option<Vec<&str>>, cost: Option<Coin>, period: Option<u64>) -> Registry {
    instantiate(InstantiateMsg {
        managers: managers.map(|m| m.into_iter().map(s).collect()),
        cost,
        period,
        using_clock: false,
    })
}

fn from(sender: &str) -> MessageInfo {
    MessageInfo { sender: s(sender), funds: vec![] }
}

fn create(reg: &mut Registry, height: u64, sender: &str, name: &str, source: &str) -> Result<ExecuteOutcome, ContractError> {
    reg.new_website(height, from(sender), s(name), s(source))
}

fn graced(reg: &Registry, name: &str) -> bool {
    reg.query_website(s(name)).unwrap().in_grace_period
}

#[test]
fn create_then_get_round_trip() {
    let mut reg = setup(None, None, Some(10));
    create(&mut reg, 7, "alice", "site1", "<html>").unwrap();
    let w = reg.query_website(s("site1")).unwrap();
    assert_eq!(w.creator, "alice");
    assert_eq!(w.source, "<html>");
    assert_eq!(w.created_height, 7);
    assert!(!w.in_grace_period);
}

#[test]
fn create_twice_fails_before_and_after_sweep() {
    let mut reg = setup(None, None, Some(10));
    create(&mut reg, 100, "alice", "x", "a").unwrap();
    match create(&mut reg, 101, "bob", "x", "b") {
        Err(ContractError::AlreadyExists { name }) => assert_eq!(name, "x"),
        other => panic!("unexpected {:?}", other),
    }
    reg.expire_old(200).unwrap();
    assert!(matches!(create(&mut reg, 201, "bob", "x", "b"), Err(ContractError::AlreadyExists { .. })));
    assert_eq!(reg.query_website(s("x")).unwrap().creator, "alice");
}

#[test]
fn sweep_boundary_is_exclusive() {
    let mut reg = setup(None, None, Some(10));
    create(&mut reg, 100, "alice", "site", "src").unwrap();
    reg.expire_old(110).unwrap();
    assert!(!graced(&reg, "site"));
    reg.expire_old(111).unwrap();
    assert!(graced(&reg, "site"));
}

#[test]
fn sweep_twice_leaves_same_state() {
    let mut reg = setup(None, None, Some(5));
    create(&mut reg, 1, "a", "one", "1").unwrap();
    create(&mut reg, 10, "a", "two", "2").unwrap();
    reg.expire_old(12).unwrap();
    assert!(graced(&reg, "one"));
    assert!(!graced(&reg, "two"));
    reg.expire_old(12).unwrap();
    assert!(graced(&reg, "one"));
    assert!(!graced(&reg, "two"));
    reg.expire_old(16).unwrap();
    assert!(graced(&reg, "two"));
}

#[test]
fn generate_hash_is_deterministic() {
    let a = generate_hash("alice", 5, "http://x");
    let b = generate_hash("alice", 5, "http://x");
    assert_eq!(a, b);
    assert_eq!(a.len(), 16);
    assert_eq!(a, "0806cee2c3b62525");
}

#[test]
fn generate_hash_known_values() {
    assert_eq!(generate_hash("alice", 100, "https://example.com"), "acf02196f7834edf");
    assert_eq!(generate_hash("bob", 0, ""), "cc952fb3c64e4d82");
    assert_eq!(generate_hash("x", u64::MAX, "y"), "7220105671dc938d");
    assert_ne!(generate_hash("alice", 6, "http://x"), generate_hash("alice", 5, "http://x"));
}

#[test]
fn hash_input_joins_with_colons() {
    assert_eq!(hash_input_bytes("alice", 5, "http://x"), b"alice:5:http://x".to_vec());
    assert_eq!(hash_input_bytes("", 0, ""), b":0:".to_vec());
    assert_eq!(hash_input_bytes("é", 1234567890, "ü"), "é:1234567890:ü".as_bytes().to_vec());
}

#[test]
fn code_of_digest_takes_eight_bytes_in_hex() {
    let digest: Vec<u8> = vec![0x00, 0x0f, 0xa0, 0xff, 0x12, 0x34, 0xab, 0xcd, 0xee, 0xee];
    assert_eq!(code_of_digest(&digest), "000fa0ff1234abcd");
}

#[test]
fn colliding_code_overwrites_link() {
    let mut links: KeyedStore<ShortLink> = KeyedStore::new();
    let code = s("0806cee2c3b62525");
    links.insert(code.clone(), ShortLink { creator: s("alice"), original_url: s("http://x"), created_height: 5 });
    links.insert(code.clone(), ShortLink { creator: s("mallory"), original_url: s("http://evil"), created_height: 9 });
    let got = links.get(&code).unwrap();
    assert_eq!(got.creator, "mallory");
    assert_eq!(got.original_url, "http://evil");
    assert_eq!(got.created_height, 9);
}

#[test]
fn short_link_created_and_replaced_under_same_code() {
    let mut reg = setup(None, None, None);
    let code = reg.create_short_link(5, s("alice"), s("http://x"));
    assert_eq!(code, "0806cee2c3b62525");
    let again = reg.create_short_link(5, s("alice"), s("http://x"));
    assert_eq!(again, code);
    let link = reg.query_short_link(code).unwrap();
    assert_eq!(link.creator, "alice");
    assert_eq!(link.original_url, "http://x");
    assert_eq!(link.created_height, 5);
}

#[test]
fn remove_requires_manager() {
    let mut reg = setup(Some(vec!["admin"]), None, Some(10));
    create(&mut reg, 1, "alice", "site", "src").unwrap();
    assert!(matches!(reg.remove(&s("alice"), &s("site")), Err(ContractError::Unauthorized {})));
    assert!(reg.query_website(s("site")).is_ok());
    assert!(matches!(reg.remove(&s("admin"), &s("site")), Ok(ExecuteOutcome::Done)));
    assert!(matches!(reg.query_website(s("site")), Err(ContractError::WebsiteNotFound { .. })));
    assert!(matches!(reg.remove(&s("admin"), &s("site")), Ok(ExecuteOutcome::Done)));
    assert!(matches!(reg.remove(&s("admin"), &s("never")), Ok(ExecuteOutcome::Done)));
}

#[test]
fn remove_without_managers_is_unauthorized() {
    let mut reg = setup(None, None, None);
    assert!(matches!(reg.remove(&s("admin"), &s("site")), Err(ContractError::Unauthorized {})));
}

#[test]
fn zero_period_disables_sweep() {
    let mut reg = setup(None, None, Some(0));
    create(&mut reg, 1, "alice", "site", "src").unwrap();
    for now in [0u64, 1, 2, 1000, u64::MAX] {
        assert!(matches!(reg.expire_old(now), Err(ContractError::NoExpirationPeriod {})));
    }
    let mut unset = setup(None, None, None);
    assert!(matches!(unset.expire_old(5), Err(ContractError::NoExpirationPeriod {})));
    assert_eq!(unset.config().period, 0);
}

#[test]
fn end_to_end_scenario() {
    let mut reg = setup(Some(vec!["admin"]), None, Some(10));
    create(&mut reg, 100, "alice", "site1", "<html>").unwrap();
    reg.expire_old(109).unwrap();
    assert!(!graced(&reg, "site1"));
    reg.expire_old(111).unwrap();
    assert!(graced(&reg, "site1"));
}

#[test]
fn cost_must_be_sent() {
    let cost = || Coin { denom: s("ujuno"), amount: 100 };
    let mut reg = setup(None, Some(cost()), Some(10));
    match create(&mut reg, 1, "alice", "site", "src") {
        Err(ContractError::NotEnoughFunds { required }) => {
            assert_eq!(required.denom, "ujuno");
            assert_eq!(required.amount, 100);
        }
        other => panic!("unexpected {:?}", other),
    }
    let short = MessageInfo { sender: s("alice"), funds: vec![Coin { denom: s("ujuno"), amount: 99 }] };
    assert!(matches!(reg.new_website(1, short, s("site"), s("src")), Err(ContractError::NotEnoughFunds { .. })));
    let paid = MessageInfo {
        sender: s("alice"),
        funds: vec![Coin { denom: s("uatom"), amount: 100 }, cost()],
    };
    assert!(reg.new_website(1, paid, s("site"), s("src")).is_ok());
}

#[test]
fn taken_name_is_reported_before_missing_funds() {
    let mut reg = setup(None, Some(Coin { denom: s("ujuno"), amount: 1 }), None);
    let paid = MessageInfo { sender: s("a"), funds: vec![Coin { denom: s("ujuno"), amount: 1 }] };
    reg.new_website(1, paid, s("n"), s("src")).unwrap();
    assert!(matches!(create(&mut reg, 2, "b", "n", "src"), Err(ContractError::AlreadyExists { .. })));
}

#[test]
fn sweep_fails_when_a_due_site_was_removed() {
    let mut reg = setup(Some(vec!["admin"]), None, Some(10));
    create(&mut reg, 1, "alice", "gone", "src").unwrap();
    create(&mut reg, 1, "alice", "kept", "src").unwrap();
    reg.remove(&s("admin"), &s("gone")).unwrap();
    match reg.expire_old(20) {
        Err(ContractError::StorageConsistency { name }) => assert_eq!(name, "gone"),
        other => panic!("unexpected {:?}", other),
    }
    assert!(!graced(&reg, "kept"));
}

#[test]
fn missing_entries_are_not_found() {
    let reg = setup(None, None, None);
    assert!(matches!(reg.query_website(s("nope")), Err(ContractError::WebsiteNotFound { name }) if name == "nope"));
    assert!(matches!(reg.query_short_link(s("00")), Err(ContractError::ShortLinkNotFound { hash }) if hash == "00"));
}

#[test]
fn execute_and_query_dispatch() {
    let mut reg = setup(Some(vec!["admin"]), None, Some(3));
    let r = execute(&mut reg, 100, from("alice"), ExecuteMsg::NewWebsite { name: s("w"), source: s("<p>") });
    assert!(matches!(r, Ok(ExecuteOutcome::Done)));
    let r = execute(&mut reg, 5, from("alice"), ExecuteMsg::CreateShortLink { url: s("http://x") });
    let hash = match r {
        Ok(ExecuteOutcome::ShortLinkCreated { hash }) => hash,
        other => panic!("unexpected {:?}", other),
    };
    assert_eq!(hash, "0806cee2c3b62525");
    match query(&reg, QueryMsg::GetShortLink { hash: hash.clone() }) {
        Ok(QueryAnswer::ShortLink(l)) => assert_eq!(l.original_url, "http://x"),
        other => panic!("unexpected {:?}", other),
    }
    assert!(execute(&mut reg, 104, from("bob"), ExecuteMsg::ExpireOld {}).is_ok());
    match query(&reg, QueryMsg::GetWebsite { name: s("w") }) {
        Ok(QueryAnswer::Website(w)) => assert!(w.in_grace_period),
        other => panic!("unexpected {:?}", other),
    }
    assert!(matches!(
        execute(&mut reg, 105, from("bob"), ExecuteMsg::Remove { name: s("w") }),
        Err(ContractError::Unauthorized {})
    ));
    assert!(execute(&mut reg, 105, from("admin"), ExecuteMsg::Remove { name: s("w") }).is_ok());
    assert!(matches!(query(&reg, QueryMsg::GetWebsite { name: s("w") }), Err(ContractError::WebsiteNotFound { .. })));
}

#[test]
fn expiry_index_orders_and_drops_buckets() {
    let mut idx = ExpiryIndex::new();
    idx.schedule(s("c"), 30);
    idx.schedule(s("a"), 10);
    idx.schedule(s("b"), 20);
    idx.schedule(s("a2"), 10);
    idx.schedule(s("a"), 10);
    assert_eq!(idx.due(10), Vec::<String>::new());
    assert_eq!(idx.due(11), vec![s("a"), s("a2"), s("a")]);
    assert_eq!(idx.due(31), vec![s("a"), s("a2"), s("a"), s("b"), s("c")]);
    idx.drop_due(20);
    assert_eq!(idx.due(u64::MAX), vec![s("b"), s("c")]);
    idx.drop_due(20);
    assert_eq!(idx.due(u64::MAX), vec![s("b"), s("c")]);
    idx.drop_due(u64::MAX);
    assert_eq!(idx.due(u64::MAX), Vec::<String>::new());
}

#[test]
fn keyed_store_insert_remove() {
    let mut st: KeyedStore<u32> = KeyedStore::new();
    st.insert(s("a"), 1);
    st.insert(s("b"), 2);
    st.insert(s("a"), 3);
    assert_eq!(st.get(&s("a")), Some(&3));
    assert_eq!(st.get(&s("b")), Some(&2));
    st.remove(&s("a"));
    assert!(!st.contains_key(&s("a")));
    assert!(st.contains_key(&s("b")));
    st.remove(&s("zzz"));
    assert_eq!(st.get(&s("b")), Some(&2));
}

#[test]
fn registry_parts_round_trip_and_validation() {
    let config = || Config { manager: None, cost: None, period: 10 };
    let site = |c: &str| Website { creator: s(c), source: s("src"), created_height: 1, in_grace_period: false };
    let reg = Registry::from_parts(
        config(),
        vec![(s("a"), site("x")), (s("b"), site("y"))],
        vec![(5, ExpireTimes { names: vec![s("a")] }), (9, ExpireTimes { names: vec![s("b")] })],
        vec![],
    )
    .unwrap();
    assert_eq!(reg.query_website(s("b")).unwrap().creator, "y");
    let (cfg, sites, buckets, links) = reg.into_parts();
    assert_eq!(cfg.period, 10);
    assert_eq!(sites.len(), 2);
    assert_eq!(buckets.iter().map(|b| b.0).collect::<Vec<_>>(), vec![5, 9]);
    assert!(links.is_empty());
    assert!(Registry::from_parts(config(), vec![(s("a"), site("x")), (s("a"), site("y"))], vec![], vec![]).is_none());
    assert!(Registry::from_parts(
        config(),
        vec![],
        vec![(9, ExpireTimes { names: vec![] }), (5, ExpireTimes { names: vec![] })],
        vec![]
    )
    .is_none());
    assert!(Registry::from_parts(
        config(),
        vec![],
        vec![(5, ExpireTimes { names: vec![] }), (5, ExpireTimes { names: vec![] })],
        vec![]
    )
    .is_none());
}
