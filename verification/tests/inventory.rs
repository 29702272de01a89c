use stormstorage::inventory::{
    place, tier_rollup, tiers, tiers_checked, volumes_on, EngineVolume, NodeInventory, Owner,
    PlacedBy, PlacedVolume, Slab,
};
use stormstorage::names::{NameMap, NameSet};

fn slab(id: &str, role: &str) -> Slab {
    Slab { id: id.into(), tier: "hot".into(), role: role.into(), ..Default::default() }
}

fn vol(id: &str, role: &str, parent: Option<&str>) -> EngineVolume {
    EngineVolume {
        id: id.into(),
        name: id.into(),
        role: role.into(),
        parent: parent.map(|p| p.to_string()),
        ..Default::default()
    }
}

fn owners(pairs: &[(&str, &[&str])]) -> NameMap<NameSet> {
    let mut m = NameMap::new();
    for (v, slabs) in pairs {
        let mut s = NameSet::new();
        for x in slabs.iter() {
            s.insert(x.to_string());
        }
        m.insert(v.to_string(), s);
    }
    m
}

#[test]
fn placement_prefers_slots_then_parent_then_role() {
    let slabs = vec![slab("sys", "system"), slab("d1", "data"), slab("d2", "data")];
    let owners = owners(&[("golden", &["sys"]), ("big", &["d1", "d2"])]);
    let vols = vec![
        vol("golden", "system", None),
        vol("clone", "system", Some("golden")),
        vol("clone2", "system", Some("clone")),
        vol("big", "data", None),
        vol("fresh-sys", "system", None),
        vol("fresh-data", "data", None),
    ];
    let p = place(&slabs, vols, &owners);
    let get = |id: &str| p.iter().find(|v| v.volume.id == id).unwrap();
    assert_eq!(get("golden").placed_by, PlacedBy::Slots);
    assert_eq!(get("clone").placed_by, PlacedBy::Parent);
    assert_eq!(get("clone").slabs, vec!["sys".to_string()]);
    assert_eq!(get("clone2").placed_by, PlacedBy::Parent, "grandparent walk");
    assert_eq!(get("big").slabs, vec!["d1".to_string(), "d2".to_string()]);
    assert_eq!(get("fresh-sys").placed_by, PlacedBy::Role);
    assert_eq!(
        get("fresh-data").placed_by,
        PlacedBy::Unknown,
        "two data slabs: ambiguous, not guessed"
    );
}

#[test]
fn tiers_aggregate_across_nodes() {
    let mut a = slab("s1", "system");
    a.total_bytes = 100;
    a.free_bytes = 40;
    a.slot_size = 1;
    a.allocated_slots = 60;
    let mut b = slab("s2", "data");
    b.tier = "cold".into();
    b.total_bytes = 1000;
    let mut c = slab("s3", "data");
    c.total_bytes = 50;
    c.free_bytes = 50;
    let owners = owners(&[("v", &["s1"])]);
    let inv1 = NodeInventory {
        slabs: vec![a.clone(), b],
        volumes: place(&[a], vec![vol("v", "system", None)], &owners),
        ..Default::default()
    };
    let inv2 = NodeInventory { slabs: vec![c], ..Default::default() };
    let mut all = NameMap::new();
    all.insert("n1".to_string(), inv1.clone());
    all.insert("n2".to_string(), inv2);
    let t = tiers(&all);
    assert_eq!(t.len(), 2);
    let hot = t.iter().find(|t| t.tier == "hot").unwrap();
    assert_eq!(hot.nodes, vec!["n1".to_string(), "n2".to_string()]);
    assert_eq!((hot.total_bytes, hot.free_bytes, hot.allocated_bytes), (150, 90, 60));
    assert_eq!(hot.volumes, 1);
    assert_eq!(volumes_on(&inv1, "s1").len(), 1);
    assert!(volumes_on(&inv1, "s2").is_empty());
    assert_eq!(hot.slabs, ["n1/s1", "n2/s3"]);
    assert_eq!(t[0].tier, "cold", "tiers come by name");
}

#[test]
fn parent_cycle_terminates() {
    let vols = vec![vol("a", "", Some("b")), vol("b", "", Some("a"))];
    let p = place(&[], vols, &NameMap::new());
    assert!(p.iter().all(|v| v.placed_by == PlacedBy::Unknown));
}

#[test]
fn engine_shapes_parse() {
    let s = Slab {
        id: "5d1c".into(),
        tier: "hot".into(),
        role: "data".into(),
        domain: "drive=file+x".into(),
        slot_size: 1048576,
        total_slots: 10,
        free_slots: 4,
        allocated_slots: 6,
        total_bytes: 10485760,
        free_bytes: 4194304,
    };
    assert_eq!(s.allocated_bytes(), 6 * 1048576);
    let v = EngineVolume {
        id: "9f0e".into(),
        name: "fastetcd-data".into(),
        virtual_size_bytes: 1,
        redundancy: "none".into(),
        health: "healthy".into(),
        role: "data".into(),
        owner: Some(Owner {
            kind: "PersistentVolumeClaim".into(),
            namespace: "kube-system".into(),
            name: "etcd".into(),
            uid: None,
        }),
        ..Default::default()
    };
    assert_eq!(v.owner.unwrap().describe(), "PersistentVolumeClaim kube-system/etcd");
}

#[test]
fn owners_without_a_namespace() {
    let o = Owner { kind: "Container".into(), name: "stormpump".into(), ..Default::default() };
    assert_eq!(o.describe(), "Container stormpump");
}

#[test]
fn allocated_bytes_stop_at_the_largest_number() {
    let s = Slab { slot_size: 1 << 40, allocated_slots: 1 << 30, ..Default::default() };
    assert_eq!(s.allocated_bytes(), u64::MAX);
}

#[test]
fn the_parent_walk_ends_after_64_generations() {
    // v0 owns the slots; v_k descends from v_(k-1).
    let chain = |n: usize| -> Vec<EngineVolume> {
        (0..=n)
            .map(|k| {
                let parent = if k == 0 { None } else { Some(format!("v{}", k - 1)) };
                vol(&format!("v{k}"), "", parent.as_deref())
            })
            .collect()
    };
    let owners = owners(&[("v0", &["s"])]);
    let p = place(&[], chain(65), &owners);
    assert_eq!(p[64].placed_by, PlacedBy::Parent);
    assert_eq!(p[65].placed_by, PlacedBy::Unknown);
}

#[test]
fn an_empty_slot_set_owns_nothing() {
    let p = place(&[slab("s", "data")], vec![vol("v", "data", None)], &owners(&[("v", &[])]));
    assert_eq!(p[0].placed_by, PlacedBy::Role);
    assert_eq!(p[0].slabs, ["s"]);
}

#[test]
fn a_volume_on_two_slabs_of_a_tier_counts_once() {
    let inv = NodeInventory {
        slabs: vec![slab("a", "data"), slab("b", "data")],
        volumes: vec![PlacedVolume {
            volume: vol("v", "data", None),
            slabs: vec!["a".into(), "b".into()],
            placed_by: PlacedBy::Slots,
        }],
        ..Default::default()
    };
    let mut all = NameMap::new();
    all.insert("n".to_string(), inv);
    assert_eq!(tiers(&all)[0].volumes, 1);
}

#[test]
fn sums_that_cannot_be_counted_are_refused() {
    let big = Slab { total_bytes: u64::MAX, ..slab("a", "data") };
    let inv = NodeInventory { slabs: vec![big.clone(), big], ..Default::default() };
    let mut all = NameMap::new();
    all.insert("n".to_string(), inv);
    assert!(tiers_checked(&all).is_none());
    assert!(tier_rollup(&all, "hot").is_none());
    assert_eq!(tier_rollup(&all, "cold").unwrap().slabs.len(), 0);
}
