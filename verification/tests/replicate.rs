use std::time::SystemTime;
use stormstorage::config::{Config, NodeConfig};
use stormstorage::events::EventLog;
use stormstorage::model::{AssemblyState, DistVolume, FedState, Node, NodeSource, NodeStatus};
use stormstorage::names::NameMap;
use stormstorage::replicate::{apply, build_payload, push_to_peers};

fn nc(name: &str, url: &str) -> NodeConfig {
    NodeConfig {
        name: name.into(),
        engine_url: url.into(),
        api_token: None,
        labels: NameMap::new(),
        tier: None,
    }
}

fn add(fed: &mut FedState, name: &str, source: NodeSource) {
    let mut status = NodeStatus::new(source);
    status.healthy = true;
    fed.nodes.insert(name.into(), Node { config: nc(name, "http://old"), status });
}

fn volume(name: &str) -> DistVolume {
    DistVolume {
        name: name.into(),
        size_bytes: 1,
        pool: None,
        replicas: 1,
        rung: "node".into(),
        legs: vec![],
        assembly: AssemblyState::SingleLeg,
        head: None,
        array_id: None,
        created_at: SystemTime::UNIX_EPOCH,
    }
}

#[test]
fn only_registered_nodes_travel() {
    let mut fed = FedState::default();
    fed.revision = 4;
    add(&mut fed, "c", NodeSource::Registered);
    add(&mut fed, "a", NodeSource::Registered);
    add(&mut fed, "s", NodeSource::Static);
    add(&mut fed, "l", NodeSource::Local);
    fed.volumes.insert("v".into(), volume("v"));
    let p = build_payload(&fed);
    assert_eq!(p.revision, 4);
    assert_eq!(p.volumes.len(), 1);
    let names: Vec<&str> = p.registered.iter().map(|n| n.name.as_str()).collect();
    assert_eq!(names, ["a", "c"]);
}

#[test]
fn a_newer_payload_is_applied_once() {
    let mut peer = FedState::default();
    peer.revision = 7;
    add(&mut peer, "new", NodeSource::Registered);
    add(&mut peer, "reg", NodeSource::Registered);
    add(&mut peer, "mine", NodeSource::Registered);
    peer.nodes.insert(
        "reg".into(),
        Node { config: nc("reg", "http://moved"), status: NodeStatus::new(NodeSource::Registered) },
    );
    peer.volumes.insert("v".into(), volume("v"));

    let mut me = FedState::default();
    me.revision = 6;
    add(&mut me, "reg", NodeSource::Registered);
    add(&mut me, "mine", NodeSource::Static);
    me.volumes.insert("gone".into(), volume("gone"));
    let mut log = EventLog::new(8);

    assert!(apply(&mut me, &mut log, build_payload(&peer)));
    assert_eq!(me.revision, 7);
    assert!(me.volumes.contains_key("v") && !me.volumes.contains_key("gone"));
    assert_eq!(me.nodes.get("reg").unwrap().config.engine_url, "http://moved");
    assert!(me.nodes.get("reg").unwrap().status.healthy, "status is local");
    assert_eq!(me.nodes.get("mine").unwrap().config.engine_url, "http://old");
    assert_eq!(me.nodes.get("mine").unwrap().status.source, NodeSource::Static);
    let new = me.nodes.get("new").unwrap();
    assert_eq!(new.status.source, NodeSource::Registered);
    assert!(!new.status.healthy, "every peer watches the engines itself");
    let e = &log.since(0)[0];
    assert_eq!((e.kind.as_str(), e.message.as_str()), ("replicate", "applied peer state at revision 7"));
    assert_eq!(e.subject, None);

    // Again: not newer any more. And what goes back is not newer either.
    assert!(!apply(&mut me, &mut log, build_payload(&peer)));
    assert_eq!(log.latest_seq(), 1);
    assert!(!apply(&mut peer, &mut log, build_payload(&me)));
    assert_eq!(peer.revision, 7);
}

#[test]
fn older_payloads_change_nothing() {
    let mut me = FedState::default();
    me.revision = 3;
    me.volumes.insert("v".into(), volume("v"));
    let peer = FedState::default();
    let mut log = EventLog::new(8);
    assert!(!apply(&mut me, &mut log, build_payload(&peer)));
    assert_eq!((me.revision, me.volumes.len()), (3, 1));
}

#[test]
fn pushes_go_to_every_peer() {
    let mut c = Config::default();
    assert!(push_to_peers(&c).is_empty());
    c.replication.peers = vec!["http://b:9093/".into(), "http://c:9093".into()];
    let calls = push_to_peers(&c);
    assert_eq!(calls[0].url, "http://b:9093/api/v1/replicate");
    assert_eq!(calls[1].url, "http://c:9093/api/v1/replicate");
    assert_eq!(calls[0].token, None);
    c.api.api_token = "t".into();
    assert_eq!(push_to_peers(&c)[1].token.as_deref(), Some("t"));
}

#[test]
fn what_polls_find_is_not_told() {
    let mut fed = FedState::default();
    add(&mut fed, "r", NodeSource::Registered);
    let before = build_payload(&fed);
    let mut status = NodeStatus::new(NodeSource::Registered);
    status.free_bytes = 99;
    status.consecutive_failures = 4;
    let config = fed.nodes.get("r").unwrap().config.clone();
    fed.nodes.insert("r".into(), Node { config, status });
    let after = build_payload(&fed);
    assert_eq!(format!("{before:?}"), format!("{after:?}"));
}
