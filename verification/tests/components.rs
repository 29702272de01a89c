use std::time::SystemTime;
use stormstorage::components::{
    build, build_checked, node_component, node_volume_component, node_volume_id, short,
    slab_component, slab_pool_id, tier_component, volume_component, ComponentSummary, Health,
    Piece,
};
use stormstorage::config::{Config, NodeConfig, PoolConfig, Selector};
use stormstorage::inventory::{
    tiers, EngineVolume, NodeInventory, Owner, PlacedBy, PlacedVolume, Slab,
};
use stormstorage::model::{
    AssemblyState, DistVolume, FedState, Leg, LegState, Node, NodeSource, NodeStatus,
};
use stormstorage::names::NameMap;

fn shown(p: &[Piece]) -> String {
    p.iter()
        .map(|p| match p {
            Piece::Text(s) => s.clone(),
            Piece::Bytes(n) => format!("<{n}>"),
        })
        .collect()
}

fn metrics(c: &ComponentSummary) -> Vec<String> {
    c.metrics
        .iter()
        .map(|m| {
            let v = match &m.value {
                Piece::Text(s) => s.clone(),
                Piece::Bytes(n) => format!("<{n}>"),
            };
            format!("{}={v}{}", m.label, m.tone.as_ref().map(|t| format!("!{t}")).unwrap_or_default())
        })
        .collect()
}

fn relations(c: &ComponentSummary) -> Vec<String> {
    c.relations
        .iter()
        .map(|r| format!("{}{}{}", r.name, if r.many { "*" } else { "" }, r.targets.join(",")))
        .collect()
}

fn leg(n: &str) -> Leg {
    Leg {
        node: n.to_string(),
        volume_id: Some("x".into()),
        state: LegState::Created,
        message: None,
        master_node: None,
        export: None,
        drive_uuid: None,
        member_uuid: None,
    }
}

fn dist_volume() -> DistVolume {
    DistVolume {
        name: "v1".into(),
        size_bytes: 1 << 30,
        pool: Some("fast".into()),
        replicas: 2,
        rung: "cluster".into(),
        legs: ["a", "b"].iter().map(|n| leg(n)).collect(),
        assembly: AssemblyState::PendingEngineSupport,
        head: None,
        array_id: None,
        created_at: SystemTime::now(),
    }
}

fn node(name: &str, healthy: bool) -> Node {
    let mut status = NodeStatus::new(NodeSource::Static);
    status.healthy = healthy;
    status.free_bytes = 7;
    status.total_bytes = 9;
    status.volumes = 2;
    Node {
        config: NodeConfig {
            name: name.into(),
            engine_url: format!("http://{name}"),
            api_token: None,
            labels: NameMap::new(),
            tier: None,
        },
        status,
    }
}

fn slab(id: &str) -> Slab {
    Slab {
        id: id.into(),
        tier: "hot".into(),
        role: "data".into(),
        domain: "drive=x".into(),
        slot_size: 2,
        allocated_slots: 3,
        total_bytes: 100,
        free_bytes: 10,
        ..Default::default()
    }
}

fn placed(id: &str, slabs: &[&str], by: PlacedBy) -> PlacedVolume {
    PlacedVolume {
        volume: EngineVolume {
            id: id.into(),
            name: format!("name-{id}"),
            virtual_size_bytes: 5,
            allocated_bytes: 1,
            role: "data".into(),
            health: "healthy".into(),
            ..Default::default()
        },
        slabs: slabs.iter().map(|s| s.to_string()).collect(),
        placed_by: by,
    }
}

#[test]
fn volume_component_relations_and_delete_action() {
    let v = dist_volume();
    let c = volume_component(&v);
    assert_eq!(c.health, Health::Healthy);
    assert!(c
        .relations
        .iter()
        .any(|r| r.name == "pool" && r.targets == vec!["pool:fast".to_string()]));
    let legs = c.relations.iter().find(|r| r.name == "legs").unwrap();
    assert_eq!(legs.targets, vec!["node:a".to_string(), "node:b".to_string()]);
    let del = &c.actions[0];
    assert_eq!(del.method, "DELETE");
    assert!(del.danger);
    assert!(c.metrics.iter().any(|m| m.label == "assembly"));
}

#[test]
fn volumes_show_their_state() {
    let mut v = dist_volume();
    let c = volume_component(&v);
    assert_eq!(c.id, "volume:v1");
    assert_eq!(shown(&c.detail), "<1073741824> · 2 leg(s) at rung \"cluster\" · pool fast");
    assert_eq!(metrics(&c), ["size=<1073741824>", "legs=2!accent", "assembly=pending!warn"]);
    assert_eq!(c.actions[0].path, "/api/v1/volumes/v1");
    v.assembly = AssemblyState::Assembled;
    v.pool = None;
    v.legs[1].state = LegState::Failed;
    let c = volume_component(&v);
    assert_eq!(c.health, Health::Error);
    assert_eq!(metrics(&c)[2], "assembly=raid1!ok");
    assert_eq!(shown(&c.detail), "<1073741824> · 2 leg(s) at rung \"cluster\"");
    assert_eq!(c.relations.len(), 1);
    v.assembly = AssemblyState::SingleLeg;
    assert_eq!(volume_component(&v).metrics.len(), 2);
}

#[test]
fn ids_are_made_and_shortened() {
    assert_eq!(slab_pool_id("n", "s"), "pool:n/s");
    assert_eq!(node_volume_id("n", "v"), "nvol:n/v");
    assert_eq!(short("11111111-0000"), "11111111");
    assert_eq!(short("abc"), "abc");
}

#[test]
fn slabs_are_pools_that_warn_when_low() {
    let inv = NodeInventory {
        slabs: vec![slab("0123456789")],
        volumes: vec![
            placed("v", &["0123456789"], PlacedBy::Slots),
            placed("w", &["other"], PlacedBy::Slots),
        ],
        ..Default::default()
    };
    let c = slab_component(&node("n", true), &inv, &inv.slabs[0]);
    assert_eq!(c.health, Health::Healthy, "a tenth is enough");
    assert_eq!(c.label, "n data hot (01234567)");
    assert_eq!(
        shown(&c.detail),
        "<10> of <100> free · <6> used · 1 volumes · tier hot · role data · drive=x"
    );
    assert_eq!(
        metrics(&c),
        ["free=<10>", "total=<100>!muted", "used=<6>", "vols=1!accent", "tier=hot", "role=data"]
    );
    assert_eq!(relations(&c), ["nodenode:n", "tiertier:hot", "volumes*nvol:n/v"]);
    let low = Slab { free_bytes: 9, ..slab("s") };
    assert_eq!(slab_component(&node("n", true), &inv, &low).health, Health::Warn);
    let unknown = Slab { total_bytes: 0, ..slab("s") };
    assert_eq!(slab_component(&node("n", true), &inv, &unknown).health, Health::Warn);
    assert_eq!(slab_component(&node("n", false), &inv, &low).health, Health::Error);
}

#[test]
fn low_water_is_a_tenth_as_doubles_have_it() {
    let inv = NodeInventory::default();
    for (free, total) in
        [(1u64, 10u64), (9, 100), (u64::MAX / 10, u64::MAX), (u64::MAX / 10 + 1, u64::MAX)]
    {
        let s = Slab { free_bytes: free, total_bytes: total, ..slab("s") };
        let warn = (free as f64 / total as f64) < 0.10;
        let health = slab_component(&node("n", true), &inv, &s).health;
        assert_eq!(health == Health::Warn, warn, "{free}/{total}");
    }
}

#[test]
fn engine_volumes_show_where_they_are_and_whose() {
    let mut v = placed("v", &["0123456789", "b"], PlacedBy::Slots);
    let c = node_volume_component("n", &v);
    assert_eq!(c.id, "nvol:n/v");
    assert_eq!(c.label, "name-v");
    assert_eq!(shown(&c.detail), "<5> · n · none · on 01234567+b · unowned");
    assert_eq!(relations(&c), ["nodenode:n", "pools*pool:n/0123456789,pool:n/b"]);
    v.volume.sealed = true;
    v.volume.redundancy = "raid1".into();
    v.volume.health = "degraded".into();
    v.placed_by = PlacedBy::Unknown;
    v.slabs.clear();
    let c = node_volume_component("n", &v);
    assert_eq!(c.health, Health::Warn);
    assert_eq!(shown(&c.detail), "<5> · n · raid1 · slab unknown · sealed");
    assert_eq!(metrics(&c), ["size=<5>", "used=<1>", "role=data", "sealed=yes!muted"]);
    assert_eq!(relations(&c).len(), 1);
    v.volume.health = "failed".into();
    v.volume.owner = Some(Owner { kind: "K".into(), name: "o".into(), ..Default::default() });
    let c = node_volume_component("n", &v);
    assert_eq!(c.health, Health::Error);
    assert!(shown(&c.detail).ends_with(" · K o"));
    v.volume.health = "?".into();
    assert_eq!(node_volume_component("n", &v).health, Health::Unknown);
}

#[test]
fn nodes_show_their_slabs() {
    let mut n = node("n", true);
    let inv = NodeInventory { slabs: vec![slab("s")], ..Default::default() };
    let c = node_component(&n, Some(&inv));
    assert_eq!(shown(&c.detail), "http://n · reachable");
    assert_eq!(metrics(&c), ["free=<7>", "total=<9>!muted", "vols=2"]);
    assert_eq!(relations(&c), ["systemsystem", "pools*pool:n/s"]);
    n.status.healthy = false;
    n.config.tier = Some("high".into());
    let c = node_component(&n, None);
    assert_eq!(c.health, Health::Error);
    assert_eq!(shown(&c.detail), "http://n · tier high · unreachable");
    assert_eq!(relations(&c)[1], "pools*");
}

#[test]
fn the_feed_holds_everything() {
    let mut fed = FedState::default();
    fed.revision = 3;
    fed.nodes.insert("a".into(), node("a", true));
    fed.nodes.insert("b".into(), node("b", false));
    fed.volumes.insert("v1".into(), dist_volume());
    let mut inv = NameMap::new();
    inv.insert(
        "a".to_string(),
        NodeInventory {
            slabs: vec![slab("s")],
            volumes: vec![placed("v", &["s"], PlacedBy::Slots)],
            ..Default::default()
        },
    );
    let config = Config {
        pools: vec![
            PoolConfig {
                name: "fast".into(),
                selector: Selector::default(),
                replicas: 2,
                rung: "node".into(),
            },
            PoolConfig {
                name: "none".into(),
                selector: Selector { nodes: vec!["zz".into()], ..Default::default() },
                replicas: 1,
                rung: "node".into(),
            },
        ],
        ..Config::default()
    };
    let feed = build(&config, &fed, &inv);
    let ids: Vec<&str> = feed.iter().map(|c| c.id.as_str()).collect();
    assert_eq!(
        ids,
        [
            "system",
            "pool:fast",
            "pool:none",
            "tier:hot",
            "node:a",
            "pool:a/s",
            "node:b",
            "volume:v1",
            "nvol:a/v"
        ]
    );
    assert_eq!(
        shown(&feed[0].detail),
        "1/2 nodes · 3 pools · 2 volumes · <7> free · rev 3"
    );
    assert_eq!(feed[0].health, Health::Warn);
    assert_eq!(
        relations(&feed[0]),
        ["nodes*node:a,node:b", "pools*pool:fast,pool:none,pool:a/s", "tiers*tier:hot"]
    );
    assert_eq!(
        shown(&feed[1].detail),
        "1/2 nodes · replicas 2 at rung \"node\" · <7> free"
    );
    assert_eq!(feed[1].health, Health::Warn);
    assert_eq!(relations(&feed[1]), ["nodes*node:a,node:b", "volumes*volume:v1"]);
    assert_eq!(feed[2].health, Health::Error, "a pool of no node");
    assert_eq!(shown(&feed[3].detail), "<10> of <100> free · 1 slab(s) on 1 node(s) · 1 volumes");
    assert_eq!(relations(&tier_component(&tiers(&inv)[0])), ["pools*pool:a/s"]);

    // Every relation leads to a component of the feed.
    let ids: Vec<&str> = feed.iter().map(|c| c.id.as_str()).collect();
    for r in feed.iter().flat_map(|c| &c.relations) {
        for t in &r.targets {
            assert!(ids.contains(&t.as_str()), "{t}");
        }
    }

    let empty = build(&Config::default(), &FedState::default(), &NameMap::new());
    assert_eq!(empty.len(), 1);
    assert_eq!(empty[0].health, Health::Idle);
}

#[test]
fn a_feed_that_cannot_be_counted_is_refused() {
    let mut fed = FedState::default();
    for n in ["a", "b"] {
        let mut x = node(n, true);
        x.status.free_bytes = u64::MAX;
        fed.nodes.insert(n.into(), x);
    }
    assert!(build_checked(&Config::default(), &fed, &NameMap::new()).is_none());
}
