use stormstorage::config::{
    default_replicas, default_rung, Config, NodeConfig, PoolConfig, Selector,
};
use stormstorage::names::NameMap;

fn labels(pairs: &[(&str, &str)]) -> NameMap<String> {
    let mut m = NameMap::new();
    for (k, v) in pairs {
        m.insert(k.to_string(), v.to_string());
    }
    m
}

fn node(name: &str, url: &str, tier: Option<&str>, pairs: &[(&str, &str)]) -> NodeConfig {
    NodeConfig {
        name: name.into(),
        engine_url: url.into(),
        api_token: None,
        labels: labels(pairs),
        tier: tier.map(|t| t.to_string()),
    }
}

#[test]
fn defaults_validate() {
    let c = Config::default();
    c.validate(None).unwrap();
    assert_eq!(c.listen_addr, "0.0.0.0:9093");
    assert_eq!(c.data_dir, None);
    assert_eq!(
        c.federation.rungs,
        ["site", "building", "room", "row", "rack", "multicluster", "cluster", "node"]
    );
    assert_eq!((c.poll.interval_secs, c.poll.fail_threshold), (15, 3));
    assert_eq!(c.api.api_token, "");
    assert!(c.replication.peers.is_empty());
    assert!(c.local.enabled);
    assert!(c.local.cluster_peers);
    assert_eq!(c.local.engine_url, "http://127.0.0.1:9090");
}

#[test]
fn parses_nodes_and_pools() {
    let c = Config {
        nodes: vec![
            node(
                "shelf25",
                "http://10.0.0.1:9090",
                Some("high"),
                &[("site", "gw"), ("rack", "r1")],
            ),
            node("shelf35", "http://10.0.0.2:9090", Some("medium"), &[]),
        ],
        pools: vec![PoolConfig {
            name: "fast".into(),
            selector: Selector { tier: Some("high".into()), ..Selector::default() },
            replicas: 2,
            rung: "cluster".into(),
        }],
        ..Config::default()
    };
    c.validate(None).unwrap();
    assert_eq!(c.nodes.len(), 2);
    let p = c.pool("fast").unwrap();
    assert!(p.selector.matches(&c.nodes[0]));
    assert!(!p.selector.matches(&c.nodes[1]));
    let eff = c.nodes[1].effective_labels();
    assert_eq!(eff.get("node").unwrap(), "shelf35");
    assert_eq!(
        eff.get("cluster").unwrap(),
        "shelf35",
        "SNO: cluster defaults to node name"
    );
}

#[test]
fn pool_rung_must_be_known() {
    let c = Config {
        pools: vec![PoolConfig {
            name: "x".into(),
            selector: Selector::default(),
            replicas: default_replicas(),
            rung: "warehouse".into(),
        }],
        ..Config::default()
    };
    let e = c.validate(None).unwrap_err();
    assert_eq!(
        e,
        "pool \"x\": rung \"warehouse\" not in federation.rungs [\"site\", \"building\", \
         \"room\", \"row\", \"rack\", \"multicluster\", \"cluster\", \"node\"]"
    );
}

#[test]
fn selector_conditions_compose() {
    let node = node("n1", "http://x:9090", Some("high"), &[("site", "gw")]);
    let mut s = Selector::default();
    assert!(s.matches(&node), "empty selector matches all");
    s.labels.insert("site".into(), "gw".into());
    assert!(s.matches(&node));
    s.labels.insert("site".into(), "g8".into());
    assert!(!s.matches(&node));
    let s = Selector { nodes: vec!["other".into()], ..Default::default() };
    assert!(!s.matches(&node));
}

#[test]
fn selector_reads_default_labels_and_tiers() {
    let n = node("n1", "http://x:9090", None, &[]);
    let s = Selector { labels: labels(&[("cluster", "n1")]), ..Default::default() };
    assert!(s.matches(&n), "the cluster label defaults to the name");
    let s = Selector { tier: Some("high".into()), ..Default::default() };
    assert!(!s.matches(&n), "a node without a tier is of no tier");
    let s = Selector { nodes: vec!["a".into(), "n1".into()], ..Default::default() };
    assert!(s.matches(&n));
}

#[test]
fn own_labels_win_over_the_defaults() {
    let n = node("n1", "u", None, &[("cluster", "c9")]);
    let eff = n.effective_labels();
    assert_eq!(eff.get("cluster").unwrap(), "c9");
    assert_eq!(eff.get("node").unwrap(), "n1");
    assert_eq!(eff.len(), 2);
}

#[test]
fn bad_configurations_are_explained() {
    let c = Config { listen_addr: "nowhere".into(), ..Config::default() };
    assert_eq!(
        c.validate(Some("invalid socket address syntax".into())).unwrap_err(),
        "listen_addr \"nowhere\": invalid socket address syntax"
    );
    let c = Config {
        nodes: vec![
            node("a", "u", None, &[]),
            node("b", "u", None, &[]),
            node("a", "v", None, &[]),
        ],
        ..Config::default()
    };
    assert_eq!(c.validate(None).unwrap_err(), "duplicate node name \"a\"");
    let mut c = Config::default();
    c.poll.interval_secs = 0;
    assert_eq!(c.validate(None).unwrap_err(), "poll.interval_secs must be non-zero");
}

#[test]
fn pools_are_found_by_name_and_have_defaults() {
    assert_eq!(default_replicas(), 2);
    assert_eq!(default_rung(), "node");
    let pool = |name: &str, replicas: u32| PoolConfig {
        name: name.into(),
        selector: Selector::default(),
        replicas,
        rung: default_rung(),
    };
    let c = Config { pools: vec![pool("a", 1), pool("b", 2), pool("b", 3)], ..Config::default() };
    assert_eq!(c.pool("b").unwrap().replicas, 2, "the first of that name");
    assert!(c.pool("c").is_none());
}

#[test]
fn a_sound_configuration_has_no_fault() {
    let c = Config {
        nodes: vec![node("a", "u", None, &[]), node("b", "u", None, &[])],
        pools: vec![PoolConfig {
            name: "p".into(),
            selector: Selector::default(),
            replicas: 1,
            rung: "rack".into(),
        }],
        ..Config::default()
    };
    assert!(c.validate(None).is_ok());
    let without = Config {
        federation: stormstorage::config::FederationConfig { rungs: vec!["node".into()] },
        ..c
    };
    assert_eq!(
        without.validate(None).unwrap_err(),
        "pool \"p\": rung \"rack\" not in federation.rungs [\"node\"]"
    );
}
