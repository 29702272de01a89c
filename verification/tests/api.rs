use std::time::SystemTime;
use stormstorage::api::{
    announces_change, assembly_failed, delete_legs, deregister_node, engine_for, engine_url_from, finish_delete,
    get_volume, human, list_nodes, list_pools, list_slab_pools, node_inventory, plan_dry_run,
    pool_rollup, pool_rollup_checked, register_node, resolve_plan, summary, summary_checked,
    teardown_notice, topology, undeleted, Creation, CreateVolumeRequest, ErrorKind, PlanRequest,
};
use stormstorage::config::{Config, NodeConfig, PoolConfig, Selector};
use stormstorage::events::Severity;
use stormstorage::inventory::{NodeInventory, PlacedBy, PlacedVolume, Slab};
use stormstorage::json::Json;
use stormstorage::model::{AssemblyState, FedState, LegState, Node, NodeSource, NodeStatus};
use stormstorage::names::NameMap;
use stormstorage::orchestrate::Task;

fn node(name: &str, rack: &str, healthy: bool, free: u64) -> Node {
    let mut labels = NameMap::new();
    labels.insert("rack".to_string(), rack.to_string());
    let mut status = NodeStatus::new(NodeSource::Static);
    status.healthy = healthy;
    status.free_bytes = free;
    status.total_bytes = 100;
    Node {
        config: NodeConfig {
            name: name.into(),
            engine_url: format!("http://{name}:9090"),
            api_token: Some("t".into()),
            labels,
            tier: if name == "a" { Some("high".into()) } else { None },
        },
        status,
    }
}

fn federation() -> FedState {
    let mut fed = FedState::default();
    fed.nodes.insert("a".into(), node("a", "r1", true, 50));
    fed.nodes.insert("b".into(), node("b", "r2", true, 60));
    fed.nodes.insert("c".into(), node("c", "r2", false, 70));
    fed
}

fn config() -> Config {
    Config {
        pools: vec![PoolConfig {
            name: "fast".into(),
            selector: Selector { nodes: vec!["a".into(), "b".into()], ..Default::default() },
            replicas: 2,
            rung: "rack".into(),
        }],
        ..Config::default()
    }
}

fn request(name: &str, size: u64, pool: Option<&str>) -> CreateVolumeRequest {
    CreateVolumeRequest {
        name: name.into(),
        size_bytes: size,
        pool: pool.map(|p| p.to_string()),
        replicas: None,
        rung: None,
        tier: None,
    }
}

fn plan_request(pool: Option<&str>) -> PlanRequest {
    PlanRequest {
        pool: pool.map(|p| p.to_string()),
        size_bytes: 10,
        replicas: None,
        rung: None,
        tier: None,
    }
}

fn made(id: &str) -> Json {
    Json::Object(vec![
        ("id".into(), Json::Text(id.into())),
        (
            "replicas".into(),
            Json::List(vec![Json::Object(vec![
                ("role".into(), Json::Text("master".into())),
                ("node".into(), Json::Text(format!("eng-{id}"))),
            ])]),
        ),
    ])
}

#[test]
fn engine_url_derivation() {
    assert_eq!(engine_url_from("10.0.0.1:9090"), "http://10.0.0.1:9090");
    assert_eq!(engine_url_from("10.0.0.1"), "http://10.0.0.1:9090");
    assert_eq!(engine_url_from("http://x:9090/"), "http://x:9090");
}

#[test]
fn human_sizes() {
    assert_eq!(human(0), "0 B");
    assert_eq!(human(1024), "1.0 KiB");
    assert_eq!(human(10 * 1024 * 1024 * 1024), "10.0 GiB");
}

#[test]
fn human_sizes_are_what_doubles_print() {
    let by_double = |b: u64| -> String {
        let units = ["B", "KiB", "MiB", "GiB", "TiB", "PiB"];
        let mut v = b as f64;
        let mut i = 0;
        while v >= 1024.0 && i < units.len() - 1 {
            v /= 1024.0;
            i += 1;
        }
        if i == 0 {
            format!("{b} B")
        } else {
            format!("{:.1} {}", v, units[i])
        }
    };
    for b in [
        1023,
        1024 + 51,
        1024 + 52,
        1280,
        1792,
        1024 * 1024 - 1,
        (1 << 30) + (1 << 28) - 1,
        (1 << 53) + 1,
        u64::MAX - 1,
        u64::MAX,
    ] {
        assert_eq!(human(b), by_double(b), "{b}");
    }
    let mut x: u64 = 88172645463325252;
    for i in 0..3000u32 {
        x ^= x << 13;
        x ^= x >> 7;
        x ^= x << 17;
        let b = x >> (i % 64);
        assert_eq!(human(b), by_double(b), "{b}");
    }
}

#[test]
fn errors_have_their_status_and_code() {
    let shown = |k: ErrorKind| (k.status(), k.code());
    assert_eq!(shown(ErrorKind::NotFound), (404, "not_found"));
    assert_eq!(shown(ErrorKind::BadRequest), (400, "bad_request"));
    assert_eq!(shown(ErrorKind::Conflict), (409, "conflict"));
    assert_eq!(shown(ErrorKind::Upstream), (502, "engine"));
}

#[test]
fn nodes_and_topology_are_listed() {
    let fed = federation();
    let l = list_nodes(&fed);
    assert_eq!(l.len(), 3);
    assert_eq!(l[0].labels.get("rack").unwrap(), "r1");
    assert_eq!(l[0].tier.as_deref(), Some("high"));
    assert!(!l[2].status.healthy);
    let t = topology(&config(), &fed);
    let chain: Vec<(&str, &str)> =
        t[1].chain.iter().map(|c| (c.rung.as_str(), c.value.as_str())).collect();
    assert_eq!(chain, [("rack", "r2"), ("cluster", "b"), ("node", "b")]);
    assert!(t[1].healthy);
    let e = engine_for(fed.nodes.get("a").unwrap());
    assert_eq!(e.capacity().token.as_deref(), Some("t"));
}

#[test]
fn pools_count_their_healthy_nodes() {
    let fed = federation();
    let c = config();
    let p = pool_rollup(&c.pools[0], &fed);
    assert_eq!(p.nodes, ["a", "b"]);
    assert_eq!((p.matched, p.healthy, p.total_bytes, p.free_bytes), (2, 2, 200, 110));
    let everyone = PoolConfig { selector: Selector::default(), ..c.pools[0].clone() };
    let p = pool_rollup_checked(&everyone, &fed).unwrap();
    assert_eq!((p.matched, p.healthy, p.free_bytes), (3, 2, 110));
    let mut full = federation();
    full.nodes.insert("d".into(), node("d", "r", true, u64::MAX));
    assert!(pool_rollup_checked(&everyone, &full).is_none());
}

#[test]
fn every_kind_of_pool_is_listed() {
    let fed = federation();
    let slab = |id: &str| Slab {
        id: id.into(),
        tier: "hot".into(),
        free_bytes: 20,
        total_bytes: 100,
        ..Default::default()
    };
    let mut inv = NameMap::new();
    inv.insert(
        "a".to_string(),
        NodeInventory {
            slabs: vec![slab("s1"), slab("s2")],
            volumes: vec![PlacedVolume {
                volume: Default::default(),
                slabs: vec!["s1".into()],
                placed_by: PlacedBy::Slots,
            }],
            ..Default::default()
        },
    );
    inv.insert("b".to_string(), NodeInventory { slabs: vec![slab("s1")], ..Default::default() });
    let p = list_pools(&config(), &fed, &inv).unwrap();
    assert_eq!(p.policy.len(), 1);
    let slabs: Vec<(&str, &str, usize)> =
        p.slabs.iter().map(|s| (s.node.as_str(), s.slab.id.as_str(), s.volumes)).collect();
    assert_eq!(slabs, [("a", "s1", 1), ("a", "s2", 0), ("b", "s1", 0)]);
    assert_eq!((p.tiers.len(), p.tiers[0].total_bytes), (1, 300));
    assert_eq!(list_slab_pools(&inv).len(), 3);
    assert_eq!(node_inventory(&inv, "a").unwrap().slabs.len(), 2);
    let e = node_inventory(&inv, "zz").unwrap_err();
    assert_eq!((e.kind, e.message.as_str()), (ErrorKind::NotFound, "node \"zz\""));
}

#[test]
fn plans_take_their_defaults_from_the_pool() {
    let fed = federation();
    let c = config();
    let r = resolve_plan(&c, &fed, &plan_request(Some("fast"))).unwrap();
    assert_eq!((r.replicas, r.rung.as_str(), r.candidates.len()), (2, "rack", 2));
    let r = resolve_plan(&c, &fed, &plan_request(None)).unwrap();
    assert_eq!((r.replicas, r.rung.as_str()), (1, "node"));
    let mut req = plan_request(Some("fast"));
    req.replicas = Some(0);
    req.rung = Some("node".into());
    req.tier = Some("high".into());
    let r = resolve_plan(&c, &fed, &req).unwrap();
    assert_eq!((r.replicas, r.rung.as_str(), r.candidates.len()), (1, "node", 1));

    let e = resolve_plan(&c, &fed, &plan_request(Some("zz"))).unwrap_err();
    assert_eq!((e.kind, e.message.as_str()), (ErrorKind::NotFound, "pool \"zz\""));
    req.rung = Some("shelf".into());
    let e = resolve_plan(&c, &fed, &req).unwrap_err();
    assert_eq!(
        (e.kind, e.message.as_str()),
        (ErrorKind::BadRequest, "rung \"shelf\" not in federation.rungs")
    );
}

#[test]
fn a_dry_run_places_the_legs() {
    let fed = federation();
    let d = plan_dry_run(&config(), &fed, &plan_request(Some("fast"))).unwrap();
    assert_eq!((d.replicas, d.rung.as_str()), (2, "rack"));
    assert_eq!(d.legs, ["b", "a"]);
    let mut req = plan_request(Some("fast"));
    req.replicas = Some(3);
    let e = plan_dry_run(&config(), &fed, &req).unwrap_err();
    assert_eq!(
        (e.kind, e.message.as_str()),
        (
            ErrorKind::Conflict,
            "need 3 distinct domains at rung \"rack\", found 2: [r1, r2]"
        )
    );
}

#[test]
fn volumes_are_created_leg_by_leg() {
    let mut fed = federation();
    let mut c = Creation::begin(&config(), &fed, request("vol1", 10, Some("fast"))).unwrap();
    let mut hosts = Vec::new();
    let mut n = 0;
    while let Some(errand) = c.next(&fed) {
        hosts.push(errand.engine.host());
        assert!(matches!(&errand.task, Task::CreateVolume { name, size_bytes: 10 } if name == "vol1"));
        n += 1;
        c.step(Ok(made(&n.to_string())));
    }
    assert_eq!(hosts, ["b", "a"]);
    assert!(c.failed(&fed).is_none());
    let now = SystemTime::UNIX_EPOCH;
    let (notice, assemble) = c.finish(&mut fed, now);
    assert!(assemble);
    assert_eq!(
        notice.message,
        "vol1: created, 2 leg(s) across rung \"rack\" on [b, a]"
    );
    assert_eq!((notice.kind.as_str(), notice.subject.as_deref()), ("volume", Some("vol1")));
    assert_eq!(fed.revision, 1);
    let v = get_volume(&fed, "vol1").unwrap();
    assert_eq!(v.assembly, AssemblyState::PendingEngineSupport);
    assert_eq!((v.replicas, v.rung.as_str(), v.created_at), (2, "rack", now));
    assert_eq!(v.legs[1].volume_id.as_deref(), Some("2"));
    assert_eq!(v.legs[1].master_node.as_deref(), Some("eng-2"));
    assert_eq!(v.legs[1].state, LegState::Created);
    assert_eq!((v.head.as_deref(), v.array_id.as_deref()), (None, None));
    let f = assembly_failed("vol1", "d: attach: x");
    assert_eq!((f.severity, f.message.as_str()), (Severity::Error, "vol1: assembly failed: d: attach: x"));
}

#[test]
fn a_failed_leg_rolls_the_others_back() {
    let fed = federation();
    let mut c = Creation::begin(&config(), &fed, request("vol1", 10, Some("fast"))).unwrap();
    c.step(Ok(made("one")));
    c.step(Err("create vol1: 507: full".into()));
    assert!(c.next(&fed).is_none());
    c.step(Ok(made("late")));
    let (e, chores) = c.failed(&fed).unwrap();
    assert_eq!(
        (e.kind, e.message.as_str()),
        (ErrorKind::Upstream, "leg create failed: a: create vol1: 507: full")
    );
    assert_eq!(chores.len(), 1);
    assert_eq!(chores[0].errand.engine.host(), "b");
    assert!(matches!(&chores[0].errand.task, Task::DeleteVolume { volume_id } if volume_id == "one"));
    assert!(chores[0].blame.is_none());
}

#[test]
fn bad_creations_are_refused() {
    let mut fed = federation();
    let refused = |fed: &FedState, r: CreateVolumeRequest| {
        let e = Creation::begin(&config(), fed, r).unwrap_err();
        (e.kind, e.message)
    };
    let required = (ErrorKind::BadRequest, "name and size_bytes required".to_string());
    assert_eq!(refused(&fed, request("", 1, None)), required);
    assert_eq!(refused(&fed, request("v", 0, None)), required);
    let mut c = Creation::begin(&config(), &fed, request("v", 1, None)).unwrap();
    c.step(Ok(Json::Null));
    let (_, assemble) = c.finish(&mut fed, SystemTime::now());
    assert!(!assemble);
    let v = get_volume(&fed, "v").unwrap();
    assert_eq!(v.assembly, AssemblyState::SingleLeg);
    assert_eq!(v.legs[0].volume_id, None, "an engine may answer without an id");
    assert_eq!(
        refused(&fed, request("v", 1, None)),
        (ErrorKind::Conflict, "volume \"v\" exists".to_string())
    );
    assert_eq!(refused(&fed, request("w", 1, Some("zz"))).0, ErrorKind::NotFound);
}

#[test]
fn a_leg_whose_node_is_gone_cannot_be_created() {
    let mut fed = federation();
    let mut c = Creation::begin(&config(), &fed, request("vol1", 10, Some("fast"))).unwrap();
    assert_eq!(c.next(&fed).unwrap().engine.host(), "b");
    c.step(Ok(made("one")));
    fed.nodes.remove("a");
    assert!(c.next(&fed).is_none());
    assert!(c.next(&federation()).is_none(), "that stays so");
    let (e, chores) = c.failed(&fed).unwrap();
    assert_eq!((e.kind, e.message.as_str()), (ErrorKind::NotFound, "node \"a\""));
    assert_eq!(chores.len(), 1, "the leg on b is taken back");
    assert_eq!(chores[0].errand.engine.host(), "b");

    // The engine is that of the node at its turn.
    let mut fed = federation();
    let mut c = Creation::begin(&config(), &fed, request("vol1", 10, Some("fast"))).unwrap();
    let mut b = fed.nodes.get("b").unwrap().clone();
    b.config.engine_url = "http://elsewhere:9090".into();
    fed.nodes.insert("b".into(), b);
    assert_eq!(c.next(&fed).unwrap().engine.host(), "elsewhere");

    // A node that stands under another name than its own.
    let mut odd = FedState::default();
    odd.nodes.insert("key".into(), node("name", "r", true, 10));
    let mut c = Creation::begin(&config(), &odd, request("w", 1, None)).unwrap();
    assert!(c.next(&odd).is_none());
    let (e, chores) = c.failed(&odd).unwrap();
    assert_eq!((e.kind, e.message.as_str()), (ErrorKind::NotFound, "node \"name\""));
    assert!(chores.is_empty());
}

#[test]
fn a_volume_is_forgotten_only_when_its_legs_are_gone() {
    let mut fed = federation();
    let mut c = Creation::begin(&config(), &fed, request("v", 10, Some("fast"))).unwrap();
    c.step(Ok(made("one")));
    c.step(Ok(made("two")));
    c.finish(&mut fed, SystemTime::now());
    let mut v = get_volume(&fed, "v").unwrap().clone();
    v.legs.push(v.legs[0].clone());
    v.legs[2].node = "zz".into();
    let d = delete_legs(&fed, &v);
    let failures = vec![None, Some("delete two: 500".to_string()), None];
    let errors = undeleted(&d, &failures);
    assert_eq!(errors, ["a: delete two: 500", "zz: node no longer known"]);
    let e = finish_delete(&mut fed, &v, "v", &errors).unwrap_err();
    assert_eq!(
        (e.kind, e.message.as_str()),
        (
            ErrorKind::Upstream,
            "legs not deleted: a: delete two: 500; zz: node no longer known — volume record kept"
        )
    );
    assert!(fed.volumes.contains_key("v"));
    assert_eq!(fed.revision, 1);
    let n = finish_delete(&mut fed, &v, "v", &vec![]).unwrap();
    assert_eq!(n.message, "v: deleted (3 legs)");
    assert_eq!(fed.revision, 2);
    let e = get_volume(&fed, "v").unwrap_err();
    assert_eq!((e.kind, e.message.as_str()), (ErrorKind::NotFound, "volume \"v\""));

    assert!(teardown_notice("v", &vec![]).is_none());
    let w = teardown_notice("v", &vec!["array x: y".into(), "b detach: z".into()]).unwrap();
    assert_eq!(w.severity, Severity::Warning);
    assert_eq!(w.message, "v: teardown issues: array x: y; b detach: z");
}

#[test]
fn heartbeats_register_and_keep_alive() {
    let mut fed = federation();
    let now = SystemTime::UNIX_EPOCH;
    assert!(announces_change(&fed, "10.0.0.9", "new"));
    let (n, changed) = register_node(&mut fed, "10.0.0.9", "new", 4, now);
    let n = n.unwrap();
    assert!(changed);
    assert_eq!(n.message, "new: self-registered from 10.0.0.9");
    assert_eq!(n.kind, "register");
    assert_eq!(fed.revision, 1);
    let x = fed.nodes.get("new").unwrap();
    assert_eq!(x.config.engine_url, "http://10.0.0.9:9090");
    assert_eq!(x.status.source, NodeSource::Registered);
    assert!(x.status.healthy);
    assert_eq!((x.status.volumes, x.status.last_ok), (4, Some(now)));

    // The same address again: nothing that peers are told changes.
    assert!(!announces_change(&fed, "10.0.0.9:9090", "new"));
    let (n, changed) = register_node(&mut fed, "10.0.0.9:9090", "new", 5, now);
    assert!(n.is_none() && !changed);
    assert_eq!((fed.revision, fed.nodes.get("new").unwrap().status.volumes), (1, 5));

    // A new address: the peers have to hear of it.
    let (n, changed) = register_node(&mut fed, "10.0.0.8:1", "new", 5, now);
    assert!(n.is_none() && changed);
    assert_eq!(fed.nodes.get("new").unwrap().config.engine_url, "http://10.0.0.8:1");
    assert_eq!(fed.revision, 2);
    assert!(!announces_change(&fed, "10.0.0.7", "c"));
    let (n, changed) = register_node(&mut fed, "10.0.0.7", "c", 1, now);
    assert!(n.is_none() && !changed);
    let c = fed.nodes.get("c").unwrap();
    assert_eq!(c.config.engine_url, "http://c:9090", "a configured node keeps its address");
    assert!(c.status.healthy);
    assert_eq!(c.status.source, NodeSource::Static);

    let n = deregister_node(&mut fed, "http://10.0.0.8:1/").unwrap();
    assert_eq!(n.message, "new: deregistered (clean shutdown)");
    assert_eq!(n.severity, Severity::Warning);
    assert!(!fed.nodes.get("new").unwrap().status.healthy);
    assert!(fed.nodes.get("c").unwrap().status.healthy);
    assert!(deregister_node(&mut fed, "nobody").is_none());
    assert_eq!((fed.nodes.len(), fed.revision), (4, 2));
}

#[test]
fn the_card_sums_up() {
    let mut fed = federation();
    let s = summary(&fed);
    assert_eq!(s.health, "warn");
    assert_eq!(s.detail, "2/3 nodes, 0 volumes (0 pending assembly), 110 B free");
    let m: Vec<(&str, &str, Option<&str>)> = s
        .metrics
        .iter()
        .map(|m| (m.label.as_str(), m.value.as_str(), m.tone.as_deref()))
        .collect();
    assert_eq!(
        m,
        [
            ("Nodes", "2/3", Some("warn")),
            ("Volumes", "0", Some("accent")),
            ("Free", "110 B", None),
            ("Capacity", "200 B", Some("muted")),
        ]
    );
    let mut c = Creation::begin(&config(), &fed, request("v", 10, Some("fast"))).unwrap();
    c.step(Ok(made("one")));
    c.step(Ok(made("two")));
    c.finish(&mut fed, SystemTime::now());
    fed.nodes.remove("c");
    let s = summary(&fed);
    assert_eq!(s.health, "ok");
    assert_eq!(s.detail, "2/2 nodes, 1 volumes (1 pending assembly), 110 B free");
    assert_eq!(s.metrics[0].tone.as_deref(), Some("ok"));
    assert_eq!(summary(&FedState::default()).health, "idle");
    let mut down = FedState::default();
    down.nodes.insert("a".into(), node("a", "r", false, 1));
    assert_eq!(summary(&down).health, "error");
    let mut full = FedState::default();
    full.nodes.insert("a".into(), node("a", "r", true, u64::MAX));
    full.nodes.insert("b".into(), node("b", "r", true, 1));
    assert!(summary_checked(&full).is_none());
}

#[test]
fn the_version_is_reported() {
    assert_eq!(stormstorage::VERSION, "0.3.0");
}
