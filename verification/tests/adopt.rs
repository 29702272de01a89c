use std::time::SystemTime;
use stormstorage::api::list_pools;
use stormstorage::components::{build, Piece};
use stormstorage::config::Config;
use stormstorage::engine::{read_capacity, slab_volume_ids, DiscoveredNode, Discovery};
use stormstorage::inventory::{EngineVolume, NodeInventory, Owner, PlacedBy, Slab};
use stormstorage::json::Json;
use stormstorage::model::{FedState, NodeSource};
use stormstorage::names::NameMap;
use stormstorage::registry::{
    adopt_local, poll_targets, read_inventory, record_poll, refresh_inventory,
};

const SYS: &str = "11111111-0000-0000-0000-000000000001";
const DATA: &str = "22222222-0000-0000-0000-000000000002";
const GOLDEN: &str = "aaaaaaaa-0000-0000-0000-000000000001";
const CLONE: &str = "aaaaaaaa-0000-0000-0000-000000000002";
const ETCD: &str = "aaaaaaaa-0000-0000-0000-000000000003";

fn slab(id: &str, role: &str, total: u64, free: u64) -> Slab {
    Slab {
        id: id.into(),
        tier: "hot".into(),
        role: role.into(),
        domain: format!("drive=file+{role}"),
        slot_size: 1 << 20,
        total_slots: total,
        free_slots: free,
        allocated_slots: total - free,
        total_bytes: total << 20,
        free_bytes: free << 20,
    }
}

fn volume(
    id: &str,
    name: &str,
    role: &str,
    parent: Option<&str>,
    sealed: bool,
    owner: Option<(&str, &str, &str)>,
) -> EngineVolume {
    EngineVolume {
        id: id.into(),
        name: name.into(),
        virtual_size_bytes: 1 << 30,
        parent: parent.map(|p| p.to_string()),
        sealed,
        role: role.into(),
        health: "healthy".into(),
        redundancy: "none".into(),
        owner: owner.map(|(kind, namespace, name)| Owner {
            kind: kind.into(),
            namespace: namespace.into(),
            name: name.into(),
            uid: None,
        }),
        ..Default::default()
    }
}

fn object(fields: Vec<(&str, Json)>) -> Json {
    Json::Object(fields.into_iter().map(|(k, v)| (k.to_string(), v)).collect())
}

fn capacity(name: &str) -> Json {
    Json::List(vec![object(vec![
        ("node", Json::Text(name.into())),
        ("total_bytes", Json::Unsigned(300 << 20)),
        ("free_bytes", Json::Unsigned(100 << 20)),
    ])])
}

fn slots(id: &str) -> Json {
    let owner = if id == SYS { GOLDEN } else { ETCD };
    let slot = |i: u64| {
        object(vec![
            ("slot_idx", Json::Unsigned(i)),
            ("volume_id", Json::Text(owner.into())),
        ])
    };
    object(vec![
        ("count", Json::Unsigned(2)),
        ("items", Json::List(vec![slot(0), slot(1)])),
    ])
}

fn inventory() -> NodeInventory {
    let tables =
        vec![SYS, DATA].into_iter().map(|s| (s.to_string(), slab_volume_ids(&slots(s)))).collect();
    read_inventory(
        vec![slab(SYS, "system", 100, 20), slab(DATA, "data", 200, 80)],
        vec![
            volume(GOLDEN, "stormpump", "system", None, true, None),
            volume(
                CLONE,
                "stormpump-root",
                "system",
                Some(GOLDEN),
                false,
                Some(("Container", "", "stormpump")),
            ),
            volume(
                ETCD,
                "fastetcd-data",
                "data",
                None,
                false,
                Some(("PersistentVolumeClaim", "kube-system", "fastetcd-data")),
            ),
        ],
        &tables,
        SystemTime::now(),
    )
}

fn text(pieces: &[Piece]) -> String {
    pieces
        .iter()
        .map(|p| match p {
            Piece::Text(s) => s.clone(),
            Piece::Bytes(n) => format!("{n}"),
        })
        .collect()
}

#[test]
fn adopts_local_engine_and_shows_slabs_as_pools() {
    let mut config = Config::default();
    config.local.engine_url = "http://127.0.0.1:4001".into();
    let mut fed = FedState::default();
    let mut all: NameMap<NodeInventory> = NameMap::new();
    let discovery = Some(Discovery {
        local_node: "node-a".into(),
        cluster_id: Some("c-1".into()),
        nodes: vec![DiscoveredNode {
            node_name: "node-b".into(),
            mgmt_addr: "127.0.0.1:4002".into(),
            cluster_id: Some("c-1".into()),
            stale: false,
        }],
    });
    adopt_local(&mut fed, &config.local, &None, &discovery, false, &None);
    for (name, url, _) in poll_targets(&fed) {
        let polled = record_poll(
            &mut fed,
            &mut all,
            config.poll.fail_threshold,
            &name,
            &url,
            read_capacity(&capacity(&name)),
            SystemTime::now(),
        );
        assert!(polled.refresh);
        refresh_inventory(&mut fed, &mut all, &name, Ok(inventory()));
    }

    let a = fed.nodes.get("node-a").expect("local engine adopted by its own name");
    assert_eq!(a.status.source, NodeSource::Local);
    assert!(a.status.healthy);
    assert_eq!(a.status.volumes, 3);
    let b = fed.nodes.get("node-b").expect("cluster peer adopted");
    assert_eq!(b.config.engine_url, "http://127.0.0.1:4002");
    assert_eq!(fed.revision, 0, "adoption is local, not replicated intent");

    // Placement: golden by its slots, its clone through the parent, the claim
    // on the data slab.
    let a = all.get("node-a").unwrap();
    assert_eq!(a.slabs.len(), 2);
    let on = |vid: &str| a.volumes.iter().find(|v| v.volume.id == vid).unwrap().slabs.clone();
    assert_eq!(on(GOLDEN), vec![SYS.to_string()]);
    assert_eq!(on(CLONE), vec![SYS.to_string()]);
    assert_eq!(on(ETCD), vec![DATA.to_string()]);
    assert_eq!(a.volumes.len(), 3);
    assert_eq!(a.volumes[1].placed_by, PlacedBy::Parent);

    let pools = list_pools(&config, &fed, &all).unwrap();
    assert_eq!(pools.slabs.len(), 4, "two slabs on each of two nodes");
    let sys_a = pools.slabs.iter().find(|p| p.node == "node-a" && p.slab.id == SYS).unwrap();
    assert_eq!(sys_a.volumes, 2);
    assert_eq!(sys_a.slab.free_bytes, 20u64 << 20);
    let hot = &pools.tiers[0];
    assert_eq!(hot.tier, "hot");
    assert_eq!(hot.total_bytes, 2 * (300u64 << 20));
    assert_eq!(hot.volumes, 6);

    // The components feed: real counts, pools with their volumes.
    let feed = build(&config, &fed, &all);
    let system = feed.iter().find(|c| c.id == "system").unwrap();
    let detail = text(&system.detail);
    assert!(detail.starts_with("2/2 nodes · 4 pools · 6 volumes"), "{detail}");
    let pool = feed.iter().find(|c| c.id == format!("pool:node-a/{SYS}")).unwrap();
    assert_eq!(pool.kind, "pool");
    let vols = pool.relations.iter().find(|r| r.name == "volumes").unwrap();
    assert_eq!(
        vols.targets,
        vec![format!("nvol:node-a/{GOLDEN}"), format!("nvol:node-a/{CLONE}")]
    );
    let claim = feed.iter().find(|c| c.id == format!("nvol:node-a/{ETCD}")).unwrap();
    assert!(text(&claim.detail).contains("PersistentVolumeClaim kube-system/fastetcd-data"));
    assert!(feed.iter().any(|c| c.id == "tier:hot"));
}

#[test]
fn no_local_engine_adopts_nothing() {
    let mut config = Config::default();
    config.local.engine_url = "http://127.0.0.1:9".into();
    let mut fed = FedState::default();
    adopt_local(&mut fed, &config.local, &None, &None, false, &None);
    assert!(fed.nodes.is_empty());
}
