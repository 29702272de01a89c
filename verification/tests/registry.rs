use std::time::SystemTime;
use stormstorage::config::{Config, LocalConfig, NodeConfig, PollConfig};
use stormstorage::engine::{Capacity, DiscoveredNode, Discovery};
use stormstorage::events::Severity;
use stormstorage::inventory::{EngineVolume, NodeInventory, PlacedBy, Slab};
use stormstorage::model::{FedState, Node, NodeSource, NodeStatus};
use stormstorage::names::NameMap;
use stormstorage::registry::{
    adopt_local, forget_unknown, hostname, poll_targets, poll_wait, read_inventory, record_poll,
    refresh_inventory, slot_owners, unless_empty, wanted,
};

const SYS: &str = "11111111-0000-0000-0000-000000000001";
const DATA: &str = "22222222-0000-0000-0000-000000000002";
const GOLDEN: &str = "aaaaaaaa-0000-0000-0000-000000000001";
const CLONE: &str = "aaaaaaaa-0000-0000-0000-000000000002";
const ETCD: &str = "aaaaaaaa-0000-0000-0000-000000000003";

fn node(name: &str, url: &str, source: NodeSource) -> Node {
    Node {
        config: NodeConfig {
            name: name.into(),
            engine_url: url.into(),
            api_token: None,
            labels: NameMap::new(),
            tier: None,
        },
        status: NodeStatus::new(source),
    }
}

fn cap(total: u64, free: u64) -> Capacity {
    Capacity { total_bytes: total, free_bytes: free, topology: NameMap::new() }
}

fn discovery(peers: &[(&str, &str)]) -> Option<Discovery> {
    Some(Discovery {
        local_node: "node-a".into(),
        cluster_id: Some("c-1".into()),
        nodes: peers
            .iter()
            .map(|(n, addr)| DiscoveredNode {
                node_name: n.to_string(),
                mgmt_addr: addr.to_string(),
                cluster_id: Some("c-1".into()),
                stale: false,
            })
            .collect(),
    })
}

#[test]
fn polls_wait_at_least_a_second() {
    assert_eq!(poll_wait(&PollConfig { interval_secs: 0, fail_threshold: 3 }), 1);
    assert_eq!(poll_wait(&PollConfig { interval_secs: 15, fail_threshold: 3 }), 15);
}

#[test]
fn polls_visit_every_node_by_name() {
    let mut fed = FedState::default();
    fed.nodes.insert("b".into(), node("b", "http://b", NodeSource::Static));
    let mut a = node("a", "http://a", NodeSource::Local);
    a.config.api_token = Some("t".into());
    fed.nodes.insert("a".into(), a);
    assert_eq!(
        poll_targets(&fed),
        [
            ("a".to_string(), "http://a".to_string(), Some("t".to_string())),
            ("b".to_string(), "http://b".to_string(), None),
        ]
    );
}

#[test]
fn failures_flip_a_node_at_the_threshold() {
    let now = SystemTime::UNIX_EPOCH;
    let mut fed = FedState::default();
    let mut inv: NameMap<NodeInventory> = NameMap::new();
    fed.nodes.insert("n".into(), node("n", "http://n", NodeSource::Static));
    inv.insert("n".into(), NodeInventory::default());

    let p = record_poll(&mut fed, &mut inv, 3, "n", "http://n", Ok(cap(100, 40)), now);
    assert!(p.refresh);
    assert_eq!(p.notices.len(), 1);
    assert_eq!(p.notices[0].message, "n: engine reachable (http://n)");
    assert_eq!(p.notices[0].severity, Severity::Info);
    let s = &fed.nodes.get("n").unwrap().status;
    assert!(s.healthy);
    assert_eq!((s.total_bytes, s.free_bytes, s.last_ok), (100, 40, Some(now)));

    for i in 1..=4u32 {
        let p = record_poll(&mut fed, &mut inv, 3, "n", "u", Err("refused".into()), now);
        let s = &fed.nodes.get("n").unwrap().status;
        assert!(!p.refresh);
        assert_eq!(s.consecutive_failures, i);
        assert_eq!(s.healthy, i < 3);
        assert_eq!(s.total_bytes, 100, "what was last known is kept");
        assert_eq!(inv.contains_key("n"), i < 3);
        if i == 3 {
            assert_eq!(p.notices[0].message, "n: engine unreachable after 3 polls: refused");
            assert_eq!(p.notices[0].severity, Severity::Error);
            assert_eq!(p.notices[0].subject.as_deref(), Some("n"));
            assert_eq!(p.notices[0].kind, "node");
        } else {
            assert!(p.notices.is_empty());
        }
    }
    record_poll(&mut fed, &mut inv, 3, "n", "u", Ok(cap(1, 1)), now);
    let s = &fed.nodes.get("n").unwrap().status;
    assert!(s.healthy, "one success marks it healthy again");
    assert_eq!(s.consecutive_failures, 0);
    let p = record_poll(&mut fed, &mut inv, 3, "n", "u", Ok(cap(1, 1)), now);
    assert!(p.notices.is_empty(), "nothing new");
    assert_eq!(fed.revision, 0, "polls never bump the revision");
}

#[test]
fn a_poll_of_an_unknown_node_is_passed_over() {
    let mut fed = FedState::default();
    let mut inv: NameMap<NodeInventory> = NameMap::new();
    inv.insert("x".into(), NodeInventory::default());
    let p = record_poll(&mut fed, &mut inv, 1, "x", "u", Err("e".into()), SystemTime::now());
    assert!(!p.refresh && p.notices.is_empty());
    assert_eq!((fed.nodes.len(), inv.len()), (0, 1));
}

fn slab(id: &str, role: &str) -> Slab {
    Slab { id: id.into(), tier: "hot".into(), role: role.into(), ..Default::default() }
}

fn volume(id: &str, role: &str, parent: Option<&str>) -> EngineVolume {
    EngineVolume {
        id: id.into(),
        role: role.into(),
        parent: parent.map(|p| p.to_string()),
        ..Default::default()
    }
}

#[test]
fn inventories_are_read_and_refreshed() {
    let slots = vec![
        (SYS.to_string(), vec![GOLDEN.to_string(), GOLDEN.to_string()]),
        (DATA.to_string(), vec![ETCD.to_string()]),
    ];
    let owners = slot_owners(&slots);
    assert_eq!(owners.get(GOLDEN).unwrap().to_vec(), [SYS]);
    assert_eq!(owners.len(), 2);
    let now = SystemTime::UNIX_EPOCH;
    let inv = read_inventory(
        vec![slab(SYS, "system"), slab(DATA, "data")],
        vec![
            volume(GOLDEN, "system", None),
            volume(CLONE, "system", Some(GOLDEN)),
            volume(ETCD, "data", None),
        ],
        &slots,
        now,
    );
    let on: Vec<(&str, PlacedBy)> =
        inv.volumes.iter().map(|v| (v.slabs[0].as_str(), v.placed_by)).collect();
    assert_eq!(
        on,
        [(SYS, PlacedBy::Slots), (SYS, PlacedBy::Parent), (DATA, PlacedBy::Slots)]
    );
    assert_eq!(inv.fetched_at, Some(now));

    let mut fed = FedState::default();
    fed.nodes.insert("n".into(), node("n", "u", NodeSource::Local));
    let mut all: NameMap<NodeInventory> = NameMap::new();
    refresh_inventory(&mut fed, &mut all, "n", Ok(inv));
    assert_eq!(fed.nodes.get("n").unwrap().status.volumes, 3);
    refresh_inventory(&mut fed, &mut all, "n", Err("timed out".into()));
    let kept = all.get("n").unwrap();
    assert_eq!(kept.volumes.len(), 3, "a failed read keeps the previous inventory");
    assert_eq!(kept.error.as_deref(), Some("timed out"));
    refresh_inventory(&mut fed, &mut all, "m", Err("e".into()));
    assert!(all.contains_key("m"));
    forget_unknown(&mut all, &fed);
    assert!(all.contains_key("n") && !all.contains_key("m"));
}

#[test]
fn the_machine_has_a_name_or_not() {
    assert_eq!(hostname(Some(" box \n".into()), Some("env".into())).as_deref(), Some("box"));
    assert_eq!(hostname(None, Some("env\n".into())).as_deref(), Some("env"));
    assert_eq!(hostname(Some(" \n".into()), Some("env".into())), None);
    assert_eq!(hostname(None, None), None);
    assert_eq!(unless_empty(""), None);
    assert_eq!(unless_empty("x").as_deref(), Some("x"));
}

#[test]
fn the_local_engine_is_adopted_by_its_own_name() {
    let mut config = Config::default();
    config.local.engine_url = "http://127.0.0.1:4000/".into();
    let mut fed = FedState::default();
    let notices = adopt_local(
        &mut fed,
        &config.local,
        &Some("tok".into()),
        &discovery(&[("node-b", "10.0.0.2:4001")]),
        false,
        &Some("box".into()),
    );
    let a = fed.nodes.get("node-a").expect("local engine adopted by its own name");
    assert_eq!(a.status.source, NodeSource::Local);
    assert_eq!(a.config.engine_url, "http://127.0.0.1:4000");
    assert_eq!(a.config.api_token.as_deref(), Some("tok"));
    let b = fed.nodes.get("node-b").expect("cluster peer adopted");
    assert_eq!(b.config.engine_url, "http://10.0.0.2:4001");
    assert_eq!(fed.revision, 0, "adoption is local, not replicated intent");
    let said: Vec<&str> = notices.iter().map(|n| n.message.as_str()).collect();
    assert_eq!(
        said,
        [
            "adopted node-a (http://127.0.0.1:4000)",
            "adopted node-b (http://10.0.0.2:4001)"
        ]
    );
    assert_eq!(notices[0].subject, None);

    // The peer leaves the cluster.
    let notices = adopt_local(
        &mut fed,
        &config.local,
        &None,
        &discovery(&[]),
        true,
        &None,
    );
    assert!(!fed.nodes.contains_key("node-b"));
    assert_eq!(
        notices[0].message,
        "node-b: no longer this engine or its cluster peer — forgotten"
    );
    assert_eq!(notices[0].severity, Severity::Warning);
    assert_eq!(fed.nodes.get("node-a").unwrap().config.api_token, None, "config is refreshed");
}

#[test]
fn no_local_engine_means_nothing_is_adopted() {
    let config = Config::default();
    let mut fed = FedState::default();
    let notices = adopt_local(&mut fed, &config.local, &None, &None, false, &Some("box".into()));
    assert!(notices.is_empty());
    assert!(fed.nodes.is_empty());
}

#[test]
fn peers_are_not_judged_without_discovery() {
    let config = Config::default();
    let mut fed = FedState::default();
    adopt_local(
        &mut fed,
        &config.local,
        &None,
        &discovery(&[("node-b", "b")]),
        true,
        &None,
    );
    assert_eq!(fed.nodes.get("node-b").unwrap().config.engine_url, "http://b:9090");
    // The engine answers, but not to discovery: it goes by the machine's name.
    let notices =
        adopt_local(&mut fed, &config.local, &None, &None, true, &Some("box".into()));
    assert!(fed.nodes.contains_key("node-b"), "a peer stays");
    assert!(!fed.nodes.contains_key("node-a"), "the local engine was renamed");
    assert!(fed.nodes.contains_key("box"));
    assert_eq!(notices.len(), 2);
}

#[test]
fn nodes_named_elsewhere_win() {
    let config = Config::default();
    let mut fed = FedState::default();
    fed.nodes.insert("shelf".into(), node("shelf", "http://127.0.0.1:9090", NodeSource::Static));
    fed.nodes.insert("node-b".into(), node("node-b", "http://elsewhere", NodeSource::Registered));
    let notices = adopt_local(
        &mut fed,
        &config.local,
        &None,
        &discovery(&[("node-b", "b")]),
        true,
        &None,
    );
    assert!(notices.is_empty());
    assert_eq!(fed.nodes.len(), 2);
    assert_eq!(fed.nodes.get("node-b").unwrap().config.engine_url, "http://elsewhere");
}

#[test]
fn the_adopted_name_has_fallbacks() {
    let mut local: LocalConfig = Config::default().local;
    let name = |l: &LocalConfig, d: &Option<Discovery>, h: Option<&str>| {
        wanted(l, &None, d, &h.map(|h| h.to_string()))[0].name.clone()
    };
    let mut d = discovery(&[]);
    assert_eq!(name(&local, &d, Some("box")), "node-a");
    d.as_mut().unwrap().local_node = String::new();
    assert_eq!(name(&local, &d, Some("box")), "box");
    assert_eq!(name(&local, &None, None), "local");
    local.name = Some("mine".into());
    local.tier = Some("high".into());
    assert_eq!(name(&local, &discovery(&[]), None), "mine");
    local.cluster_peers = false;
    let w = wanted(&local, &None, &discovery(&[("p", "p")]), &None);
    assert_eq!(w.len(), 1);
    assert_eq!(w[0].tier.as_deref(), Some("high"));
}
