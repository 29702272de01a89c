use stormstorage::engine::{
    array_created, array_deleted, drive_already_open, drive_closed, drive_opened, drives_in,
    first_capacity_object, member_added, member_removed, read_capacity, slab_volume_ids,
    volume_attached, volume_created, volume_deleted, volume_detached, volumes_in, AttachedLeg,
    Capacity, DiscoveredNode, Discovery, Engine, Method, Opened, Reply,
};
use stormstorage::json::{write_json, Json};

fn text(s: &str) -> Json {
    Json::Text(s.into())
}

fn object(fields: Vec<(&str, Json)>) -> Json {
    Json::Object(fields.into_iter().map(|(k, v)| (k.to_string(), v)).collect())
}

fn reply(status: u16, status_text: &str, body: Json) -> Reply {
    Reply { status, status_text: status_text.into(), body }
}

#[test]
fn master_node_and_attach_helpers() {
    let v = object(vec![
        ("id", text("vol-x")),
        (
            "replicas",
            Json::List(vec![object(vec![
                ("node", text("nodeb")),
                ("role", text("master")),
                ("sync", object(vec![("state", text("in_sync"))])),
            ])]),
        ),
    ]);
    assert_eq!(Engine::master_node_of(&v), Some("nodeb".into()));
    assert_eq!(Engine::master_node_of(&object(vec![])), None);

    let leg = AttachedLeg {
        nqn: "nqn.2024.io.stormblock:b".into(),
        traddr: "10.0.0.2".into(),
        trsvcid: 4420,
        nsid: 7,
    };
    assert_eq!(
        leg.drive_uri(),
        "nvme-tcp://10.0.0.2:4420/nqn.2024.io.stormblock:b?nsid=7"
    );

    let e = Engine::new("http://192.168.8.150:9090", None);
    assert_eq!(e.host(), "192.168.8.150");
}

#[test]
fn capacity_shapes_parse() {
    let bare = object(vec![
        ("node", text("n1")),
        ("total_bytes", Json::Unsigned(100)),
        ("free_bytes", Json::Unsigned(40)),
        ("topology", object(vec![("rack", text("r1"))])),
    ]);
    let one = |n: u64| {
        object(vec![("total_bytes", Json::Unsigned(n)), ("free_bytes", Json::Unsigned(n))])
    };
    let arr = Json::List(vec![one(1)]);
    let wrapped = object(vec![("nodes", Json::List(vec![one(2)]))]);
    assert!(first_capacity_object(&bare).is_some());
    assert!(first_capacity_object(&arr).is_some());
    assert!(first_capacity_object(&wrapped).is_some());
    assert!(first_capacity_object(&text("nope")).is_none());

    let c = read_capacity(&bare).unwrap();
    assert_eq!((c.total_bytes, c.free_bytes), (100, 40));
    assert_eq!(c.topology.get("rack").unwrap(), "r1");
    assert_eq!(read_capacity(&wrapped).unwrap().total_bytes, 2);
}

#[test]
fn capacity_is_that_of_the_first_object_that_carries_it() {
    let bare = || object(vec![("node", text("x"))]);
    let one = |key: &str, n: u64| object(vec![(key, Json::Unsigned(n))]);
    let list = Json::List(vec![
        text("noise"),
        bare(),
        object(vec![("total_bytes", Json::Unsigned(1)), ("free_bytes", Json::Unsigned(1))]),
        one("total_bytes", 9),
    ]);
    let o = first_capacity_object(&list).unwrap();
    assert_eq!((o.number_at("total_bytes"), o.number_at("free_bytes")), (Some(1), Some(1)));
    let c = read_capacity(&list).unwrap();
    assert_eq!((c.total_bytes, c.free_bytes), (1, 1));

    let wrapped = object(vec![("nodes", Json::List(vec![bare(), one("free_bytes", 4)]))]);
    assert_eq!(read_capacity(&wrapped).unwrap().free_bytes, 4);

    let without = Json::List(vec![bare(), bare()]);
    assert!(first_capacity_object(&without).is_none());
    assert_eq!(
        read_capacity(&without).unwrap_err(),
        "unrecognized capacity shape: [{\"node\":\"x\"},{\"node\":\"x\"}]"
    );
    assert!(first_capacity_object(&bare()).is_none());
    assert!(first_capacity_object(&object(vec![("nodes", Json::List(vec![bare()]))])).is_none());
}

#[test]
fn capacity_reads_tolerantly() {
    let v = object(vec![
        ("free_bytes", Json::Unsigned(5)),
        ("total_bytes", Json::Negative(-1)),
        ("topology", object(vec![("rack", Json::Unsigned(3)), ("site", text("gw"))])),
    ]);
    let c = read_capacity(&v).unwrap();
    assert_eq!((c.total_bytes, c.free_bytes), (0, 5));
    assert_eq!(c.topology.len(), 1);
    assert_eq!(c.topology.get("site").unwrap(), "gw");
    assert_eq!(
        read_capacity(&Json::List(vec![text("a\"b\n")])).unwrap_err(),
        "unrecognized capacity shape: [\"a\\\"b\\n\"]"
    );
    let none = Capacity::default();
    assert_eq!((none.total_bytes, none.free_bytes, none.topology.len()), (0, 0, 0));
}

#[test]
fn json_is_written_compactly() {
    let v = object(vec![
        ("a", Json::List(vec![Json::Null, Json::Bool(true), Json::Bool(false)])),
        ("b\t", Json::Negative(i64::MIN)),
        ("c", Json::Real("1.5".into())),
        ("d", Json::Unsigned(u64::MAX)),
        ("e", object(vec![])),
    ]);
    assert_eq!(
        write_json(&v),
        "{\"a\":[null,true,false],\"b\\t\":-9223372036854775808,\"c\":1.5,\
         \"d\":18446744073709551615,\"e\":{}}"
    );
}

#[test]
fn urls_and_hosts() {
    let e = Engine::new("http://x:9090//", Some("secret".into()));
    let c = e.capacity();
    assert_eq!(c.method, Method::Get);
    assert_eq!(c.url, "http://x:9090/v1/nodes/capacity");
    assert_eq!(c.token.as_deref(), Some("secret"));
    assert!(c.body.is_none());
    assert_eq!(Engine::new("u", Some(String::new())).capacity().token, None);
    assert_eq!(Engine::new("u", None).capacity().token, None);
    assert_eq!(Engine::new("https://h.example/p", None).host(), "h.example");
    assert_eq!(Engine::new("bare", None).host(), "bare");
}

#[test]
fn requests_have_their_paths_and_bodies() {
    let e = Engine::new("http://x", None);
    let shown = |c: stormstorage::engine::Call| {
        let m = match c.method {
            Method::Get => "GET",
            Method::Post => "POST",
            Method::Delete => "DELETE",
        };
        let body = c.body.map(|b| format!(" {}", write_json(&b))).unwrap_or_default();
        format!("{m} {}{body}", c.url)
    };
    assert_eq!(
        shown(e.create_volume("v", 10)),
        "POST http://x/v1/volumes {\"name\":\"v\",\"size_bytes\":10,\"replica_tier\":{\"slaves\":0}}"
    );
    assert_eq!(
        shown(e.attach_volume("id", "n")),
        "POST http://x/v1/volumes/id/attach {\"node\":\"n\",\"mode\":\"read_write\"}"
    );
    assert_eq!(
        shown(e.detach_volume("id", "n")),
        "POST http://x/v1/volumes/id/detach {\"node\":\"n\"}"
    );
    assert_eq!(
        shown(e.create_raid1(&vec!["a".into(), "b".into()])),
        "POST http://x/api/v1/arrays {\"level\":\"Raid1\",\"drive_uuids\":[\"a\",\"b\"]}"
    );
    assert_eq!(shown(e.get_array("r")), "GET http://x/api/v1/arrays/r");
    assert_eq!(shown(e.delete_array("r")), "DELETE http://x/api/v1/arrays/r");
    assert_eq!(
        shown(e.array_add_member("r", "d")),
        "POST http://x/api/v1/arrays/r/members {\"drive_uuid\":\"d\"}"
    );
    assert_eq!(shown(e.array_remove_member("r", "m")), "DELETE http://x/api/v1/arrays/r/members/m");
    assert_eq!(shown(e.list_drives()), "GET http://x/api/v1/drives");
    assert_eq!(
        shown(e.add_drive_idempotent("p")),
        "POST http://x/api/v1/drives {\"path\":\"p\"}"
    );
    assert_eq!(
        shown(e.delete_drive("nvme-tcp://h:1/q%", true)),
        "DELETE http://x/api/v1/drives/nvme-tcp:%2F%2Fh:1%2Fq%25?force=true"
    );
    assert_eq!(shown(e.delete_drive("u", false)), "DELETE http://x/api/v1/drives/u");
    assert_eq!(shown(e.delete_volume("id")), "DELETE http://x/v1/volumes/id");
    assert_eq!(shown(e.list_volumes()), "GET http://x/v1/volumes");
    assert_eq!(shown(e.discovery()), "GET http://x/api/v1/discovery");
    assert_eq!(shown(e.list_slabs()), "GET http://x/api/v1/slabs");
    assert_eq!(shown(e.list_engine_volumes()), "GET http://x/api/v1/volumes");
    assert_eq!(shown(e.slab_slots("s")), "GET http://x/api/v1/slabs/s/slots");
}

#[test]
fn refusals_say_why() {
    let r = || reply(500, "500 Internal Server Error", object(vec![("message", text("full"))]));
    assert_eq!(
        volume_created("v", r()).unwrap_err(),
        "create v: 500 Internal Server Error: full"
    );
    assert_eq!(
        volume_created("v", reply(500, "500", Json::Null)).unwrap_err(),
        "create v: 500: no message"
    );
    assert_eq!(
        volume_detached("id", reply(400, "400 Bad Request", object(vec![("error", text("e"))])))
            .unwrap_err(),
        "/v1/volumes/id/detach: 400 Bad Request: e"
    );
    assert_eq!(
        array_created(reply(
            400,
            "400",
            object(vec![("message", Json::Null), ("error", text("e"))])
        ))
        .unwrap_err(),
        "/api/v1/arrays: 400: no message"
    );
    assert_eq!(
        member_removed("m", &reply(404, "404 Not Found", Json::Null)).unwrap_err(),
        "remove member m: 404 Not Found"
    );
    assert_eq!(
        array_deleted("r", &reply(500, "500 x", Json::Null)).unwrap_err(),
        "delete array r: 500 x"
    );
    assert_eq!(
        volume_deleted("v", &reply(500, "500 x", Json::Null)).unwrap_err(),
        "delete v: 500 x"
    );
    assert_eq!(
        drive_closed("d", &reply(500, "500 x", Json::Null)).unwrap_err(),
        "close drive d: 500 x"
    );
}

#[test]
fn what_is_gone_is_deleted() {
    let gone = reply(404, "404 Not Found", Json::Null);
    assert!(array_deleted("r", &gone).is_ok());
    assert!(volume_deleted("v", &gone).is_ok());
    assert!(drive_closed("d", &gone).is_ok());
    let fine = reply(204, "204 No Content", Json::Null);
    assert!(volume_deleted("v", &fine).is_ok());
    assert!(member_removed("m", &fine).is_ok());
    assert!(volume_detached("v", reply(200, "200 OK", Json::Null)).is_ok());
    let v = volume_created("v", reply(201, "201", object(vec![("id", text("i"))]))).unwrap();
    assert_eq!(v.text_at("id").unwrap(), "i");
}

#[test]
fn attach_answers_are_read() {
    let e = Engine::new("http://10.1.1.1:9090", None);
    let answer = |traddr: &str, port: Json, nsid: Json| {
        reply(
            200,
            "200 OK",
            object(vec![
                ("transport", text("nvme_tcp")),
                (
                    "addresses",
                    Json::List(vec![object(vec![("traddr", text(traddr)), ("trsvcid", port)])]),
                ),
                ("nsid", nsid),
                ("nqn", text("q")),
            ]),
        )
    };
    let a = volume_attached(&e, "v", answer("10.0.0.9", Json::Unsigned(4421), Json::Unsigned(3)))
        .unwrap();
    assert_eq!((a.nqn.as_str(), a.traddr.as_str(), a.trsvcid, a.nsid), ("q", "10.0.0.9", 4421, 3));
    for wild in ["", "0.0.0.0", "::"] {
        let a = volume_attached(&e, "v", answer(wild, Json::Null, Json::Unsigned(3))).unwrap();
        assert_eq!(a.traddr, "10.1.1.1", "a wildcard address is replaced by the host");
        assert_eq!(a.trsvcid, 4420, "the port has a default");
    }
    let a = volume_attached(
        &e,
        "v",
        answer("h", Json::Unsigned(65536 + 7), Json::Unsigned((1 << 32) + 9)),
    )
    .unwrap();
    assert_eq!((a.trsvcid, a.nsid), (7, 9));
    assert_eq!(
        volume_attached(&e, "v", answer("h", Json::Null, Json::Null)).unwrap_err(),
        "attach v: engine returned no nsid — its NVMe-oF target is not running \
         (an engine started without an export device has no listener)"
    );
    assert_eq!(
        volume_attached(&e, "v", reply(200, "200", object(vec![("transport", text("ublk"))])))
            .unwrap_err(),
        "attach v: unexpected transport in {\"transport\":\"ublk\"}"
    );
    assert_eq!(
        volume_attached(&e, "v", reply(200, "200", object(vec![("transport", text("nvme_tcp"))])))
            .unwrap_err(),
        "attach v: no addresses in {\"transport\":\"nvme_tcp\"}"
    );
    assert_eq!(
        volume_attached(&e, "v", reply(409, "409 Conflict", Json::Null)).unwrap_err(),
        "/v1/volumes/v/attach: 409 Conflict: no message"
    );
}

#[test]
fn members_report_their_uuid() {
    let ok = reply(200, "200", object(vec![("member_uuid", text("m"))]));
    assert_eq!(member_added("r", ok).unwrap(), "m");
    assert_eq!(
        member_added("r", reply(200, "200", object(vec![]))).unwrap_err(),
        "add member: no member_uuid in {}"
    );
    assert_eq!(
        member_added("r", reply(500, "500", Json::Null)).unwrap_err(),
        "/api/v1/arrays/r/members: 500: no message"
    );
    assert!(array_created(reply(200, "200", Json::Null)).is_ok());
}

#[test]
fn drives_open_idempotently() {
    let uuid = |r: &Reply| match drive_opened("p", r) {
        Opened::Uuid(u) => u,
        Opened::Already => "already".into(),
        Opened::Failed(e) => e,
    };
    assert_eq!(uuid(&reply(201, "201", object(vec![("uuid", text("u"))]))), "u");
    assert_eq!(uuid(&reply(200, "200", object(vec![]))), "open p: no uuid in {}");
    let conflict = reply(409, "409 Conflict", object(vec![("error", text("open"))]));
    assert_eq!(uuid(&conflict), "already");
    assert_eq!(
        uuid(&reply(500, "500", object(vec![("message", text("m"))]))),
        "open p: 500: m"
    );
    let drive = |path: &str, uuid: Option<&str>| {
        let mut f = vec![("path", text(path))];
        if let Some(u) = uuid {
            f.push(("uuid", text(u)));
        }
        object(f)
    };
    let listing = object(vec![(
        "items",
        Json::List(vec![drive("o", Some("1")), drive("p", None), drive("p", Some("2"))]),
    )]);
    assert_eq!(drive_already_open("p", &conflict, &listing).unwrap(), "2");
    assert_eq!(
        drive_already_open("q", &conflict, &listing).unwrap_err(),
        "open q: 409 Conflict: open"
    );
}

#[test]
fn lists_come_bare_or_wrapped() {
    let two = || Json::List(vec![text("a"), text("b")]);
    assert_eq!(drives_in(&two()).len(), 2);
    assert_eq!(drives_in(&object(vec![("items", two())])).len(), 2);
    assert_eq!(drives_in(&object(vec![("drives", two())])).len(), 2);
    assert_eq!(drives_in(&object(vec![("items", Json::Null), ("drives", two())])).len(), 0);
    assert_eq!(drives_in(&text("x")).len(), 0);
    assert_eq!(volumes_in(&object(vec![("volumes", two())])).len(), 2);
    let slots = object(vec![(
        "items",
        Json::List(vec![
            object(vec![("volume_id", text("v1"))]),
            object(vec![]),
            object(vec![("volume_id", text("v1"))]),
        ]),
    )]);
    assert_eq!(slab_volume_ids(&slots), ["v1", "v1"]);
}

#[test]
fn cluster_peers_are_live_and_of_the_same_cluster() {
    let heard = |name: &str, cluster: Option<&str>, stale: bool| DiscoveredNode {
        node_name: name.into(),
        mgmt_addr: name.into(),
        cluster_id: cluster.map(|c| c.to_string()),
        stale,
    };
    let mut d = Discovery {
        local_node: "me".into(),
        cluster_id: Some("c".into()),
        nodes: vec![
            heard("a", Some("c"), false),
            heard("b", Some("c"), true),
            heard("x", Some("other"), false),
            heard("y", None, false),
        ],
    };
    let names = |d: &Discovery| -> Vec<String> {
        d.cluster_peers().iter().map(|p| p.node_name.clone()).collect()
    };
    assert_eq!(names(&d), ["a"]);
    d.cluster_id = None;
    assert!(names(&d).is_empty(), "an engine in no cluster has no peers");
}
