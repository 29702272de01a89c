use stormstorage::config::NodeConfig;
use stormstorage::model::{FedState, Node, NodeSource, NodeStatus};
use stormstorage::names::NameMap;

fn nc(name: &str) -> NodeConfig {
    NodeConfig {
        name: name.into(),
        engine_url: format!("http://{name}:9090"),
        api_token: None,
        labels: NameMap::new(),
        tier: None,
    }
}

#[test]
fn node_labels_prefer_config_over_engine() {
    let mut n = Node { config: nc("n1"), status: NodeStatus::new(NodeSource::Static) };
    n.status.engine_topology.insert("rack".into(), "engine-says-r9".into());
    n.config.labels.insert("rack".into(), "r1".into());
    let l = n.labels();
    assert_eq!(l.get("rack").unwrap(), "r1");
    assert_eq!(l.get("node").unwrap(), "n1");
    assert_eq!(l.get("cluster").unwrap(), "n1");
}

#[test]
fn engine_labels_fill_in_what_config_leaves_out() {
    let mut n = Node { config: nc("n1"), status: NodeStatus::new(NodeSource::Static) };
    n.status.engine_topology.insert("site".into(), "gw".into());
    n.status.engine_topology.insert("node".into(), "other".into());
    let l = n.labels();
    assert_eq!(l.get("site").unwrap(), "gw");
    assert_eq!(l.get("node").unwrap(), "n1", "the default wins too");
    assert_eq!(l.len(), 3);
}

#[test]
fn config_overlay_keeps_status() {
    let mut st = FedState::default();
    st.apply_config_nodes(&[nc("a"), nc("b")]);
    assert_eq!(st.nodes.len(), 2);
    assert_eq!(st.nodes.get("b").unwrap().status.source, NodeSource::Static);

    // A node that registered itself and is healthy, now named by the config.
    let mut status = NodeStatus::new(NodeSource::Registered);
    status.healthy = true;
    status.free_bytes = 7;
    st.nodes.insert("a".into(), Node { config: nc("a"), status });
    let mut a2 = nc("a");
    a2.engine_url = "http://a:9999".into();
    st.apply_config_nodes(&[a2]);
    let a = st.nodes.get("a").unwrap();
    assert_eq!(a.config.engine_url, "http://a:9999");
    assert!(a.status.healthy);
    assert_eq!(a.status.free_bytes, 7);
    assert_eq!(a.status.source, NodeSource::Static);
    assert!(st.nodes.contains_key("b"), "other nodes are left alone");
    assert_eq!(st.revision, 0);
}

#[test]
fn a_new_status_knows_nothing() {
    let s = NodeStatus::new(NodeSource::Local);
    assert!(!s.healthy);
    assert_eq!(s.last_ok, None);
    assert_eq!((s.consecutive_failures, s.total_bytes, s.free_bytes, s.volumes), (0, 0, 0, 0));
    assert!(s.engine_topology.is_empty());
    assert_eq!(s.source, NodeSource::Local);
    let fed = FedState::default();
    assert_eq!((fed.revision, fed.nodes.len(), fed.volumes.len()), (0, 0, 0));
}
