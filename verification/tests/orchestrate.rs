use std::time::SystemTime;
use stormstorage::config::NodeConfig;
use stormstorage::engine::AttachedLeg;
use stormstorage::events::Severity;
use stormstorage::json::Json;
use stormstorage::model::{
    AssemblyState, DistVolume, FedState, Leg, LegState, Node, NodeSource, NodeStatus,
};
use stormstorage::names::NameMap;
use stormstorage::orchestrate::{
    choose_target, engine_of, is_wired, leg_on, move_target_candidates, progress,
    rebuild_progress, report, teardown, wait_member_active, Answer, Assembly, Errand, LegMove,
    MovePhase, Phase, Rebuild, Task,
};

fn node(name: &str, rack: &str, free: u64) -> Node {
    let mut labels = NameMap::new();
    labels.insert("rack".to_string(), rack.to_string());
    let config = NodeConfig {
        name: name.into(),
        engine_url: format!("http://{name}:9090"),
        api_token: None,
        labels,
        tier: None,
    };
    let mut status = NodeStatus::new(NodeSource::Static);
    status.healthy = true;
    status.free_bytes = free;
    status.total_bytes = 100;
    Node { config, status }
}

fn leg(n: &str) -> Leg {
    Leg {
        node: n.to_string(),
        volume_id: Some("vol-x".into()),
        state: LegState::Created,
        message: None,
        master_node: None,
        export: None,
        drive_uuid: None,
        member_uuid: None,
    }
}

fn vol(legs: &[&str], rung: &str) -> DistVolume {
    DistVolume {
        name: "v".into(),
        size_bytes: 10,
        pool: None,
        replicas: legs.len() as u32,
        rung: rung.into(),
        legs: legs.iter().map(|n| leg(n)).collect(),
        assembly: AssemblyState::Assembled,
        head: Some(legs[0].to_string()),
        array_id: Some("arr".into()),
        created_at: SystemTime::now(),
    }
}

fn rungs() -> Vec<String> {
    ["rack", "node"].iter().map(|s| s.to_string()).collect()
}

fn federation() -> FedState {
    let mut fed = FedState::default();
    for (n, r) in [("a", "r1"), ("b", "r2"), ("c", "r2"), ("d", "r3"), ("e", "r3")] {
        fed.nodes.insert(n.into(), node(n, r, 50));
    }
    let mut e = node("e", "r3", 50);
    e.status.healthy = false;
    fed.nodes.insert("e".into(), e);
    fed
}

fn coordinates(n: u32) -> AttachedLeg {
    AttachedLeg { nqn: "q".into(), traddr: "h".into(), trsvcid: 4420, nsid: n }
}

fn text(s: &str) -> Json {
    Json::Text(s.into())
}

fn object(fields: Vec<(&str, Json)>) -> Json {
    Json::Object(fields.into_iter().map(|(k, v)| (k.to_string(), v)).collect())
}

/// An array with one member, in this state.
fn array_with(uuid: &str, state: &str) -> Json {
    object(vec![(
        "members",
        Json::List(vec![object(vec![("uuid", text(uuid)), ("state", text(state))])]),
    )])
}

/// What an errand asks, and of which engine.
fn shown(e: &Errand) -> String {
    let what = match &e.task {
        Task::CreateVolume { name, size_bytes } => format!("create {name} {size_bytes}"),
        Task::Attach { volume_id, master } => format!("attach {volume_id} as {master}"),
        Task::OpenDrive { uri } => format!("open {uri}"),
        Task::Mirror { drives } => format!("mirror {}", drives.join("+")),
        Task::AddMember { array_id, drive_uuid } => format!("add {drive_uuid} to {array_id}"),
        Task::RemoveMember { array_id, member_uuid } => {
            format!("remove {member_uuid} from {array_id}")
        }
        Task::DeleteArray { array_id } => format!("delete array {array_id}"),
        Task::CloseDrive { uri } => format!("close {uri}"),
        Task::Detach { volume_id, master } => format!("detach {volume_id} as {master}"),
        Task::DeleteVolume { volume_id } => format!("delete {volume_id}"),
    };
    format!("{}: {what}", e.engine.host())
}

#[test]
fn move_targets_exclude_leg_nodes_and_staying_domains() {
    let rungs = rungs();
    let fed = federation();

    let v = vol(&["a", "b"], "rack");
    // Moving the leg off b: staying leg is a (r1). c shares b's old rack
    // r2 — allowed (b is leaving). d (r3) allowed. e unhealthy. a carries
    // a leg already.
    let c = move_target_candidates(&fed, &rungs, &v, "b");
    let names: Vec<&str> = c.iter().map(|x| x.name.as_str()).collect();
    assert!(names.contains(&"c"));
    assert!(names.contains(&"d"));
    assert!(!names.contains(&"a"), "already carries a leg");
    assert!(!names.contains(&"e"), "unhealthy");

    // Moving off a instead: staying leg is b (r2) — c (r2) now collides.
    let c2 = move_target_candidates(&fed, &rungs, &v, "a");
    let names2: Vec<&str> = c2.iter().map(|x| x.name.as_str()).collect();
    assert!(!names2.contains(&"c"), "same rack as the staying leg");
    assert!(names2.contains(&"d"));
}

#[test]
fn an_assembly_runs_to_its_end() {
    let mut fed = federation();
    let mut v = vol(&["a", "d"], "rack");
    v.assembly = AssemblyState::PendingEngineSupport;
    v.head = None;
    v.array_id = None;
    v.legs[1].master_node = Some("eng-d".into());
    fed.volumes.insert("v".into(), v);

    let mut a = Assembly::begin(&fed, "v").unwrap();
    let mut asked = Vec::new();
    let mut n = 0;
    while let Some(errand) = a.next() {
        asked.push(shown(&errand));
        n += 1;
        a.step(match errand.task {
            Task::Attach { .. } => Answer::Attached(Ok(coordinates(n))),
            Task::OpenDrive { .. } => Answer::Uuid(Ok(format!("drive{n}"))),
            _ => Answer::Body(Ok(object(vec![
                ("id", text("arr-1")),
                (
                    "members",
                    Json::List(vec![
                        object(vec![("uuid", text("m0"))]),
                        object(vec![]),
                        object(vec![("uuid", text("m2"))]),
                    ]),
                ),
            ]))),
        });
    }
    assert_eq!(
        asked,
        [
            "a: attach vol-x as localhost",
            "d: attach vol-x as eng-d",
            "a: open nvme-tcp://h:4420/q?nsid=1",
            "a: open nvme-tcp://h:4420/q?nsid=2",
            "a: mirror drive3+drive4",
        ]
    );
    assert_eq!(a.phase(), Phase::Done);
    let notice = a.commit(&mut fed, "v").unwrap();
    assert_eq!(notice.message, "v: RAID1 arr-1 on a, 2 legs [a, d]");
    assert_eq!((notice.kind.as_str(), notice.severity), ("assemble", Severity::Info));
    assert_eq!(fed.revision, 1);
    let v = fed.volumes.get("v").unwrap();
    assert_eq!(v.assembly, AssemblyState::Assembled);
    assert_eq!(v.head.as_deref(), Some("a"));
    assert_eq!(v.array_id.as_deref(), Some("arr-1"));
    assert_eq!(v.legs[0].member_uuid.as_deref(), Some("m0"));
    assert_eq!(v.legs[1].member_uuid, None);
    assert_eq!(v.legs[1].drive_uuid.as_deref(), Some("drive4"));
    assert_eq!(v.legs[1].export.as_ref().unwrap().nsid, 2);
}

#[test]
fn a_failed_assembly_keeps_what_was_wired() {
    let mut fed = federation();
    let mut v = vol(&["a", "d"], "rack");
    v.assembly = AssemblyState::PendingEngineSupport;
    fed.volumes.insert("v".into(), v);
    let mut a = Assembly::begin(&fed, "v").unwrap();
    a.step(Answer::Uuid(Ok("not asked".into())));
    a.step(Answer::Attached(Ok(coordinates(1))));
    a.step(Answer::Attached(Err("no target".into())));
    assert!(a.next().is_none());
    a.step(Answer::Attached(Ok(coordinates(2))));
    assert_eq!(a.commit(&mut fed, "v").unwrap_err(), "d: attach: no target");
    assert_eq!(fed.revision, 0);
    let v = fed.volumes.get("v").unwrap();
    assert_eq!(v.assembly, AssemblyState::PendingEngineSupport);
    assert!(v.legs[0].export.is_some() && v.legs[1].export.is_none());

    // A second run goes on from there.
    let mut a = Assembly::begin(&fed, "v").unwrap();
    assert_eq!(shown(&a.next().unwrap()), "d: attach vol-x as localhost");
    a.step(Answer::Attached(Ok(coordinates(2))));
    a.step(Answer::Uuid(Err("busy".into())));
    assert_eq!(
        a.commit(&mut fed, "v").unwrap_err(),
        "a: open nvme-tcp://h:4420/q?nsid=1: busy"
    );
}

#[test]
fn arrays_can_fail_too() {
    let mut fed = federation();
    let mut v = vol(&["a", "d"], "rack");
    v.legs[0].export = Some(coordinates(1));
    v.legs[1].export = Some(coordinates(2));
    fed.volumes.insert("v".into(), v);
    let run = |fed: &FedState, last: Answer| {
        let mut a = Assembly::begin(fed, "v").unwrap();
        a.step(Answer::Uuid(Ok("d1".into())));
        a.step(Answer::Uuid(Ok("d2".into())));
        a.step(last);
        a
    };
    let a = run(&fed, Answer::Body(Err("degraded".into())));
    assert_eq!(a.commit(&mut fed, "v").unwrap_err(), "a: create raid1: degraded");
    let a = run(&fed, Answer::Body(Ok(object(vec![]))));
    assert_eq!(a.commit(&mut fed, "v").unwrap_err(), "a: array response without id: {}");
}

#[test]
fn what_cannot_be_assembled_is_refused() {
    let mut fed = federation();
    assert_eq!(Assembly::begin(&fed, "v").unwrap_err(), "volume \"v\" not found");
    fed.volumes.insert("v".into(), vol(&["a"], "rack"));
    assert_eq!(
        Assembly::begin(&fed, "v").unwrap_err(),
        "v: single leg — nothing to assemble"
    );
    let mut v = vol(&["a", "b"], "rack");
    v.legs[1].volume_id = None;
    fed.volumes.insert("v".into(), v);
    assert_eq!(Assembly::begin(&fed, "v").unwrap_err(), "v: not every leg is created");
    fed.volumes.insert("v".into(), vol(&["a", "zz", "yy"], "rack"));
    assert_eq!(Assembly::begin(&fed, "v").unwrap_err(), "node \"zz\" not in registry");
    assert_eq!(engine_of(&fed, "zz").unwrap_err(), "node \"zz\" not in registry");
}

#[test]
fn teardown_takes_everything_apart() {
    let fed = federation();
    let mut v = vol(&["a", "b", "gone"], "rack");
    v.legs[0].export = Some(coordinates(1));
    v.legs[2].export = Some(coordinates(3));
    let chores = teardown(&fed, &v);
    let asked: Vec<String> = chores.iter().map(|c| shown(&c.errand)).collect();
    assert_eq!(
        asked,
        [
            "a: delete array arr",
            "a: close nvme-tcp://h:4420/q?nsid=1",
            "a: close nvme-tcp://h:4420/q?nsid=3",
            "a: detach vol-x as localhost",
        ]
    );
    let failures = vec![Some("x".to_string()), None, Some("y".to_string()), Some("z".to_string())];
    assert_eq!(
        report(&chores, &failures),
        ["array arr: x", "head drive nvme-tcp://h:4420/q?nsid=3: y", "a detach: z"]
    );
    v.head = None;
    assert_eq!(teardown(&fed, &v).len(), 1, "without a head only the exports are detached");
}

#[test]
fn targets_are_chosen_or_checked() {
    let fed = federation();
    let v = vol(&["a", "b"], "rack");
    let to = |t: &str| choose_target(&fed, &rungs(), &v, "b", Some(t.to_string()));
    assert_eq!(to("d").unwrap(), "d");
    assert_eq!(to("zz").unwrap_err(), "target node \"zz\" not in registry");
    assert_eq!(to("e").unwrap_err(), "target node \"e\" is unhealthy");
    assert_eq!(choose_target(&fed, &rungs(), &v, "b", None).unwrap(), "c", "ties go by name");
    let mut big = vol(&["a", "b"], "rack");
    big.size_bytes = 51;
    assert_eq!(
        choose_target(&fed, &rungs(), &big, "b", None).unwrap_err(),
        "no move target: no node with 51 bytes free (2 candidates)"
    );
    assert!(leg_on(&v.legs, "a") && !leg_on(&v.legs, "c"));
}

#[test]
fn a_leg_moves() {
    let mut fed = federation();
    let mut v = vol(&["a", "b"], "rack");
    v.legs[1].member_uuid = Some("m-old".into());
    v.legs[1].export = Some(coordinates(9));
    assert!(is_wired(&v));
    fed.volumes.insert("v".into(), v);
    let mut m = LegMove::begin(&fed, &rungs(), "v", "b", None).unwrap();
    let mut asked = Vec::new();
    while let Some(errand) = m.next() {
        asked.push(shown(&errand));
        m.step(match errand.task {
            Task::CreateVolume { .. } => Answer::Body(Ok(object(vec![("id", text("new-vol"))]))),
            Task::Attach { .. } => Answer::Attached(Ok(coordinates(5))),
            Task::OpenDrive { .. } => Answer::Uuid(Ok("drv".into())),
            _ => Answer::Uuid(Ok("mem".into())),
        });
    }
    assert_eq!(
        asked,
        [
            "c: create v 10",
            "c: attach new-vol as localhost",
            "a: open nvme-tcp://h:4420/q?nsid=5",
            "a: add drv to arr",
        ]
    );
    let (target, notice) = m.outcome().unwrap();
    assert_eq!(target, "c");
    assert_eq!(notice.message, "v: moving leg b → c; rebuild started on a");
    let (engine, array, member) = m.watched();
    assert_eq!((engine.host().as_str(), array.as_str(), member.as_str()), ("a", "arr", "mem"));
    assert!(m.retire(&fed).is_empty(), "the old leg stays while the array rebuilds");
    m.looked(false, None);
    m.looked(false, Some(&array_with("mem", "rebuilding")));
    assert_eq!(m.phase(), MovePhase::Rebuild);
    m.looked(false, Some(&array_with("mem", "Active")));
    assert_eq!(m.phase(), MovePhase::Active);
    m.looked(true, None);
    assert_eq!(m.phase(), MovePhase::Active, "the verdict stands");

    let chores = m.retire(&fed);
    let asked: Vec<String> = chores.iter().map(|c| shown(&c.errand)).collect();
    assert_eq!(
        asked,
        [
            "a: remove m-old from arr",
            "a: close nvme-tcp://h:4420/q?nsid=9",
            "b: detach vol-x as localhost",
            "b: delete vol-x",
        ]
    );
    let failures: Vec<Option<String>> = vec![Some("e".into()); 4];
    let problems = report(&chores, &failures);
    assert_eq!(problems, ["remove member: e", "head drive: e", "b delete volume: e"]);
    let (n, tell) = m.finish(&mut fed, &problems);
    assert!(tell);
    assert_eq!(
        n.message,
        "v: leg move b → c complete; cleanup issues: remove member: e; head drive: e; \
         b delete volume: e"
    );
    assert_eq!(n.severity, Severity::Warning);
    assert_eq!(fed.revision, 1);
    let v = fed.volumes.get("v").unwrap();
    let nodes: Vec<&str> = v.legs.iter().map(|l| l.node.as_str()).collect();
    assert_eq!(nodes, ["a", "c"]);
    assert_eq!(v.legs[1].volume_id.as_deref(), Some("new-vol"));
    assert_eq!(v.legs[1].master_node.as_deref(), Some("localhost"));
    assert_eq!(v.legs[1].message, None);
    assert_eq!(m.finish(&mut fed, &vec![]).0.message, "v: leg move b → c complete");
}

#[test]
fn a_rebuild_that_comes_to_nothing_keeps_the_old_leg() {
    let looks: Vec<(bool, Option<Json>)> = vec![
        (false, Some(array_with("mem", "FAILED"))),
        (true, None),
        (true, Some(array_with("mem", "active"))),
    ];
    for (expired, array) in looks {
        let mut fed = federation();
        fed.revision = 5;
        let mut v = vol(&["a", "b"], "rack");
        v.legs[1].member_uuid = Some("m-old".into());
        v.legs[1].export = Some(coordinates(9));
        fed.volumes.insert("v".into(), v);
        let mut m = LegMove::begin(&fed, &rungs(), "v", "b", Some("d".into())).unwrap();
        assert!(m.retire(&fed).is_empty());
        m.looked(false, Some(&array_with("mem", "active")));
        assert_eq!(m.phase(), MovePhase::Create, "there is nothing to look at yet");
        m.step(Answer::Body(Ok(object(vec![("id", text("new-vol"))]))));
        m.step(Answer::Attached(Ok(coordinates(5))));
        m.step(Answer::Uuid(Ok("drv".into())));
        m.step(Answer::Uuid(Ok("mem".into())));
        assert_eq!(m.outcome().unwrap().0, "d");
        m.looked(false, Some(&array_with("mem", "syncing")));
        m.looked(expired, array.as_ref());
        assert_eq!(m.phase(), MovePhase::Stalled);
        m.looked(false, Some(&array_with("mem", "active")));
        assert_eq!(m.phase(), MovePhase::Stalled, "the verdict stands");
        assert!(m.next().is_none());
        assert!(m.retire(&fed).is_empty());
        let before = format!("{:?}", fed.volumes);
        let (n, tell) = m.finish(&mut fed, &vec![]);
        assert!(!tell);
        assert_eq!(
            n.message,
            "v: rebuild of new leg on d did not reach active — old leg on b kept"
        );
        assert_eq!(n.severity, Severity::Error);
        assert_eq!(format!("{:?}", fed.volumes), before);
        assert_eq!(fed.revision, 5);
    }
}

#[test]
fn a_move_that_fails_says_where() {
    let mut fed = federation();
    fed.volumes.insert("v".into(), vol(&["a", "b"], "rack"));
    let fail = |answers: Vec<Answer>| {
        let mut m = LegMove::begin(&fed, &rungs(), "v", "b", Some("d".into())).unwrap();
        for a in answers {
            m.step(a);
        }
        m.outcome().unwrap_err()
    };
    let made = || {
        Answer::Body(Ok(object(vec![
            ("id", text("i")),
            (
                "replicas",
                Json::List(vec![object(vec![("role", text("master")), ("node", text("eng"))])]),
            ),
        ])))
    };
    assert_eq!(fail(vec![Answer::Body(Err("full".into()))]), "d: create leg: full");
    assert_eq!(fail(vec![Answer::Body(Ok(Json::Null))]), "d: create returned no id");
    assert_eq!(fail(vec![made(), Answer::Attached(Err("x".into()))]), "d: attach: x");
    let attached = || Answer::Attached(Ok(coordinates(1)));
    assert_eq!(
        fail(vec![made(), attached(), Answer::Uuid(Err("x".into()))]),
        "a: open leg drive: x"
    );
    assert_eq!(
        fail(vec![made(), attached(), Answer::Uuid(Ok("u".into())), Answer::Uuid(Err("x".into()))]),
        "a: add member: x"
    );
}

#[test]
fn moves_that_make_no_sense_are_refused() {
    let mut fed = federation();
    let begin = |fed: &FedState, from: &str| {
        LegMove::begin(fed, &rungs(), "v", from, None).unwrap_err()
    };
    assert_eq!(begin(&fed, "b"), "volume \"v\" not found");
    let mut v = vol(&["a", "b"], "rack");
    v.assembly = AssemblyState::PendingEngineSupport;
    fed.volumes.insert("v".into(), v);
    assert_eq!(begin(&fed, "b"), "v: not assembled — only assembled volumes move legs");
    fed.volumes.insert("v".into(), vol(&["a", "b"], "rack"));
    assert_eq!(begin(&fed, "c"), "v: no leg on \"c\"");
    fed.volumes.insert("v".into(), vol(&["zz", "b"], "rack"));
    assert_eq!(begin(&fed, "b"), "node \"zz\" not in registry", "the head is unknown");
    let mut v = vol(&["a", "b"], "rack");
    v.array_id = None;
    assert!(!is_wired(&v));
}

#[test]
fn rebuilds_are_watched_whatever_the_case() {
    let array = |state: &str| {
        object(vec![(
            "members",
            Json::List(vec![
                object(vec![("uuid", text("other")), ("state", text("failed"))]),
                object(vec![("uuid", text("m")), ("state", text(state))]),
            ]),
        )])
    };
    assert_eq!(rebuild_progress(&array("ACTIVE"), "m"), Rebuild::Active);
    assert_eq!(rebuild_progress(&array("Failed"), "m"), Rebuild::Failed);
    assert_eq!(rebuild_progress(&array("rebuilding"), "m"), Rebuild::Running);
    assert_eq!(rebuild_progress(&array("active"), "nobody"), Rebuild::Running);
    assert_eq!(rebuild_progress(&Json::Null, "m"), Rebuild::Running);
    assert_eq!(progress(&Some("active".into())), Rebuild::Active);
    assert_eq!(progress(&Some("Active".into())), Rebuild::Running);

    assert_eq!(wait_member_active(false, Some(&array("Active")), "m"), Some(true));
    assert_eq!(wait_member_active(false, Some(&array("failed")), "m"), Some(false));
    assert_eq!(wait_member_active(false, Some(&array("syncing")), "m"), None);
    assert_eq!(wait_member_active(false, None, "m"), None, "an engine may be away for a while");
    assert_eq!(wait_member_active(true, Some(&array("active")), "m"), Some(false));
}

#[test]
fn errands_become_requests() {
    let mut fed = federation();
    fed.volumes.insert("v".into(), vol(&["a", "b"], "rack"));
    let chores = teardown(&fed, fed.volumes.get("v").unwrap());
    assert_eq!(chores[0].errand.call().url, "http://a:9090/api/v1/arrays/arr");
    let m = LegMove::begin(&fed, &rungs(), "v", "b", Some("d".into())).unwrap();
    assert_eq!(m.next().unwrap().call().url, "http://d:9090/v1/volumes");
}
