//! What is asked of an engine, and what is read in its answers.

use crate::api;
use crate::engine;
use crate::engine::{CapacityView, EngineView, Method};
use crate::json;
use crate::json::JsonView;
use crate::laws::lists;
use crate::laws::lists::kept;
use crate::laws::text as text_laws;
use crate::model::NodeView;
use crate::orchestrate::{ErrandView, TaskView};
use crate::text;
use vstd::prelude::*;

verus! {

/// An engine is asked at its own address, with its token unless that is empty.
pub proof fn engine_is_asked_at_its_address(
    node: NodeView,
    method: Method,
    path: Seq<char>,
    body: Option<JsonView>,
)
    ensures
        ({
            let c = api::engine_at(node).call(method, path, body);
            let token = node.config.api_token;
            &&& c.method == method
            &&& c.url == text::trimmed_end(node.config.engine_url, '/') + path
            &&& c.token == if token is Some && (token->0).len() > 0 {
                token
            } else {
                None
            }
            &&& c.body == body
        }),
{
}

/// What each task asks of an engine.
pub proof fn task_is_asked_for(e: ErrandView)
    ensures
        ({
            let c = e.call();
            let u = e.engine.url;
            &&& c.token == if e.engine.token is Some && (e.engine.token->0).len() > 0 {
                e.engine.token
            } else {
                None
            }
            &&& match e.task {
                TaskView::CreateVolume { name, size_bytes } => c.method == Method::Post && c.url
                    == u + "/v1/volumes"@ && c.body is Some && (c.body->0).text_at("name"@) == Some(
                    name,
                ) && (c.body->0).number_at("size_bytes"@) == Some(size_bytes) && (c.body->0).at(
                    "replica_tier"@,
                ) == Some(JsonView::Object(seq![("slaves"@, JsonView::Unsigned(0))])),
                TaskView::Attach { volume_id, master } => c.method == Method::Post && c.url == u + (
                "/v1/volumes/"@ + volume_id + "/attach"@) && c.body is Some && (c.body->0).text_at(
                    "node"@,
                ) == Some(master) && (c.body->0).text_at("mode"@) == Some("read_write"@),
                TaskView::Detach { volume_id, master } => c.method == Method::Post && c.url == u + (
                "/v1/volumes/"@ + volume_id + "/detach"@) && c.body is Some && (c.body->0).text_at(
                    "node"@,
                ) == Some(master),
                TaskView::OpenDrive { uri } => c.method == Method::Post && c.url == u
                    + "/api/v1/drives"@ && c.body is Some && (c.body->0).text_at("path"@) == Some(
                    uri,
                ),
                TaskView::Mirror { drives } => c.method == Method::Post && c.url == u
                    + "/api/v1/arrays"@ && c.body is Some && (c.body->0).text_at("level"@) == Some(
                    "Raid1"@,
                ) && (c.body->0).list_at("drive_uuids"@) == Some(
                    drives.map_values(|d: Seq<char>| JsonView::Text(d)),
                ),
                TaskView::AddMember { array_id, drive_uuid } => c.method == Method::Post && c.url
                    == u + ("/api/v1/arrays/"@ + array_id + "/members"@) && c.body is Some && (
                c.body->0).text_at("drive_uuid"@) == Some(drive_uuid),
                TaskView::RemoveMember { array_id, member_uuid } => c.method == Method::Delete
                    && c.url == u + ("/api/v1/arrays/"@ + array_id + "/members"@ + "/"@
                    + member_uuid) && c.body is None,
                TaskView::DeleteArray { array_id } => c.method == Method::Delete && c.url == u + (
                "/api/v1/arrays/"@ + array_id) && c.body is None,
                TaskView::CloseDrive { uri } => c.method == Method::Delete && c.url == u + (
                "/api/v1/drives/"@ + text::path_segment(uri) + "?force=true"@) && c.body is None,
                TaskView::DeleteVolume { volume_id } => c.method == Method::Delete && c.url == u + (
                "/v1/volumes/"@ + volume_id) && c.body is None,
            }
        }),
{
    reveal_strlit("name");
    reveal_strlit("size_bytes");
    reveal_strlit("replica_tier");
    reveal_strlit("node");
    reveal_strlit("mode");
    reveal_strlit("level");
    reveal_strlit("drive_uuids");
    match e.task {
        TaskView::CreateVolume { name, size_bytes } => {
            let o = engine::volume_request(name, size_bytes)->Object_0;
            field_counts(o, "name"@, 0);
            assert(o[0].0.len() != "size_bytes"@.len());
            field_counts(o, "size_bytes"@, 1);
            assert(o[0].0.len() != "replica_tier"@.len() && o[1].0.len() != "replica_tier"@.len());
            field_counts(o, "replica_tier"@, 2);
        },
        TaskView::Attach { volume_id, master } => {
            let o = seq![
                ("node"@, JsonView::Text(master)),
                ("mode"@, JsonView::Text("read_write"@)),
            ];
            field_counts(o, "node"@, 0);
            assert("node"@[0] != "mode"@[0]);
            field_counts(o, "mode"@, 1);
        },
        TaskView::Detach { volume_id, master } => {
            field_counts(seq![("node"@, JsonView::Text(master))], "node"@, 0);
        },
        TaskView::OpenDrive { uri } => {
            field_counts(seq![("path"@, JsonView::Text(uri))], "path"@, 0);
        },
        TaskView::AddMember { array_id, drive_uuid } => {
            field_counts(seq![("drive_uuid"@, JsonView::Text(drive_uuid))], "drive_uuid"@, 0);
        },
        TaskView::Mirror { drives } => {
            let o = engine::raid1_request(drives)->Object_0;
            field_counts(o, "level"@, 0);
            assert(o[0].0.len() != "drive_uuids"@.len());
            field_counts(o, "drive_uuids"@, 1);
            assert(o[1].1->List_0 =~= drives.map_values(|d: Seq<char>| JsonView::Text(d)));
        },
        _ => {},
    }
}

proof fn field_counts(o: Seq<(Seq<char>, JsonView)>, key: Seq<char>, k: int)
    requires
        0 <= k < o.len(),
        o[k].0 == key,
        forall|j: int| 0 <= j < k ==> (#[trigger] o[j]).0 != key,
    ensures
        json::field(o, key) == Some(o[k].1),
    decreases o.len(),
{
    if k > 0 {
        let rest = o.drop_first();
        assert(o[0].0 != key);
        assert forall|j: int| 0 <= j < k - 1 implies (#[trigger] rest[j]).0 != key by {
            assert(o[j + 1].0 != key);
        }
        field_counts(rest, key, k - 1);
    }
}

proof fn no_field(o: Seq<(Seq<char>, JsonView)>, key: Seq<char>)
    requires
        forall|j: int| 0 <= j < o.len() ==> (#[trigger] o[j]).0 != key,
    ensures
        json::field(o, key) is None,
    decreases o.len(),
{
    if o.len() > 0 {
        let rest = o.drop_first();
        assert(o[0].0 != key);
        assert forall|j: int| 0 <= j < rest.len() implies (#[trigger] rest[j]).0 != key by {
            assert(o[j + 1].0 != key);
        }
        no_field(rest, key);
    }
}

/// What stands under a key of an object is the first field of that name, and is
/// read as a text, a number or a list only where it is one. Nothing stands
/// under a key of anything else.
pub proof fn first_field_of_the_name_counts(
    o: Seq<(Seq<char>, JsonView)>,
    key: Seq<char>,
    k: int,
    v: JsonView,
)
    requires
        0 <= k <= o.len(),
        k < o.len() ==> o[k].0 == key,
        forall|j: int| 0 <= j < k ==> (#[trigger] o[j]).0 != key,
    ensures
        ({
            let x = JsonView::Object(o);
            &&& k < o.len() ==> x.at(key) == Some(o[k].1)
            &&& k == o.len() ==> x.at(key) is None
            &&& x.text_at(key) == if k < o.len() && o[k].1 is Text {
                Some(o[k].1->Text_0)
            } else {
                None
            }
            &&& x.number_at(key) == if k < o.len() && o[k].1 is Unsigned {
                Some(o[k].1->Unsigned_0)
            } else {
                None
            }
            &&& x.list_at(key) == if k < o.len() && o[k].1 is List {
                Some(o[k].1->List_0)
            } else {
                None
            }
            &&& !(v is Object) ==> v.at(key) is None
        }),
{
    if k < o.len() {
        field_counts(o, key, k);
    } else {
        no_field(o, key);
    }
}

/// The node of a volume's master is that of the first replica whose role is
/// master.
pub proof fn first_master_names_the_node(v: JsonView, replicas: Seq<JsonView>, k: int)
    requires
        v.list_at("replicas"@) == Some(replicas),
        0 <= k <= replicas.len(),
        forall|j: int| 0 <= j < k ==> (#[trigger] replicas[j]).text_at("role"@) != Some("master"@),
        k < replicas.len() ==> replicas[k].text_at("role"@) == Some("master"@),
    ensures
        engine::master_node(v) == if k < replicas.len() {
            replicas[k].text_at("node"@)
        } else {
            None
        },
{
    master_is_first(replicas, k);
}

proof fn master_is_first(replicas: Seq<JsonView>, k: int)
    requires
        0 <= k <= replicas.len(),
        forall|j: int| 0 <= j < k ==> (#[trigger] replicas[j]).text_at("role"@) != Some("master"@),
        k < replicas.len() ==> replicas[k].text_at("role"@) == Some("master"@),
    ensures
        engine::first_master(replicas) == if k < replicas.len() {
            Some(replicas[k])
        } else {
            None
        },
    decreases replicas.len(),
{
    if replicas.len() > 0 && k > 0 {
        let rest = replicas.drop_first();
        assert(replicas[0].text_at("role"@) != Some("master"@));
        assert forall|j: int| 0 <= j < k - 1 implies (#[trigger] rest[j]).text_at("role"@) != Some(
            "master"@,
        ) by {
            assert(replicas[j + 1].text_at("role"@) != Some("master"@));
        }
        master_is_first(rest, k - 1);
    }
}

/// What is read of an engine's capacity in a list, or under `nodes`: the bytes
/// and the topology of the first object with capacity fields, none where a
/// number is missing, and nothing where no object has such fields.
pub proof fn capacity_is_that_of_the_first_object(
    v: JsonView,
    l: Seq<JsonView>,
    k: int,
)
    requires
        v == JsonView::List(l) || (v is Object && v.at("total_bytes"@) is None && v.at(
            "free_bytes"@,
        ) is None && v.list_at("nodes"@) == Some(l)),
        0 <= k <= l.len(),
        forall|j: int|
            0 <= j < k ==> (#[trigger] l[j]).at("total_bytes"@) is None && l[j].at("free_bytes"@)
                is None,
        k < l.len() ==> l[k].at("total_bytes"@) is Some || l[k].at("free_bytes"@) is Some,
    ensures
        engine::capacity_object(v) == if k < l.len() {
            Some(l[k])
        } else {
            None
        },
        engine::capacity_in(v) == if k < l.len() {
            Some(stated_capacity(l[k]))
        } else {
            None
        },
{
    assert forall|j: int| 0 <= j < k implies !engine::carries_capacity(#[trigger] l[j]) by {
        assert(l[j].at("total_bytes"@) is None && l[j].at("free_bytes"@) is None);
    }
    carrying_is_first(l, k);
}

/// The capacity that an object states.
pub open spec fn stated_capacity(o: JsonView) -> CapacityView {
    CapacityView {
        total_bytes: if o.number_at("total_bytes"@) is Some {
            o.number_at("total_bytes"@)->0
        } else {
            0
        },
        free_bytes: if o.number_at("free_bytes"@) is Some {
            o.number_at("free_bytes"@)->0
        } else {
            0
        },
        topology: match o.at("topology"@) {
            Some(JsonView::Object(fields)) => engine::text_fields(fields),
            _ => Map::empty(),
        },
    }
}

/// An engine that answers with one object with capacity fields states its
/// capacity by it.
pub proof fn bare_capacity_is_read(v: JsonView)
    requires
        v.at("total_bytes"@) is Some || v.at("free_bytes"@) is Some,
    ensures
        engine::capacity_object(v) == Some(v),
        engine::capacity_in(v) == Some(stated_capacity(v)),
{
}

proof fn carrying_is_first(l: Seq<JsonView>, k: int)
    requires
        0 <= k <= l.len(),
        forall|j: int| 0 <= j < k ==> !engine::carries_capacity(#[trigger] l[j]),
        k < l.len() ==> engine::carries_capacity(l[k]),
    ensures
        engine::first_carrying(l) == if k < l.len() {
            Some(l[k])
        } else {
            None
        },
    decreases l.len(),
{
    if l.len() > 0 && k > 0 {
        let rest = l.drop_first();
        assert(!engine::carries_capacity(l[0]));
        assert forall|j: int| 0 <= j < k - 1 implies !engine::carries_capacity(
            #[trigger] rest[j],
        ) by {
            assert(!engine::carries_capacity(l[j + 1]));
        }
        carrying_is_first(rest, k - 1);
    }
}

/// A label that an engine reports is the last text of that name; what is no
/// text is passed over.
pub proof fn last_text_of_the_name_counts(
    fields: Seq<(Seq<char>, JsonView)>,
    key: Seq<char>,
    k: int,
)
    requires
        -1 <= k < fields.len(),
        k >= 0 ==> fields[k].0 == key && fields[k].1 is Text,
        forall|j: int|
            k < j < fields.len() ==> (#[trigger] fields[j]).0 != key || !(fields[j].1 is Text),
    ensures
        engine::text_fields(fields).contains_key(key) <==> k >= 0,
        k >= 0 ==> engine::text_fields(fields)[key] == fields[k].1->Text_0,
    decreases fields.len(),
{
    if fields.len() > 0 && k < fields.len() - 1 {
        let front = fields.drop_last();
        let last = fields[fields.len() - 1];
        assert(last.0 != key || !(last.1 is Text));
        assert forall|j: int| k < j < front.len() implies (#[trigger] front[j]).0 != key || !(
        front[j].1 is Text) by {
            assert(fields[j].0 != key || !(fields[j].1 is Text));
        }
        last_text_of_the_name_counts(front, key, k);
    }
}

/// When an attached volume can be reached, and where: over NVMe-TCP, at the
/// first address that is given, under the namespace that is given. A wildcard
/// address stands for the engine's own host, and a missing port for the usual
/// one.
pub proof fn attached_volume_is_reached_at_the_first_address(
    e: EngineView,
    id: Seq<char>,
    v: JsonView,
)
    ensures
        ({
            let r = engine::coordinates(e, id, v);
            let l = v.list_at("addresses"@);
            &&& r is Ok <==> v.text_at("transport"@) == Some("nvme_tcp"@) && l is Some && (
            l->0).len() > 0 && v.number_at("nsid"@) is Some
            &&& r matches Ok(x) ==> {
                let a = (l->0)[0];
                let t = a.text_at("traddr"@);
                let open = t is None || (t->0).len() == 0 || t->0 == "0.0.0.0"@ || t->0 == "::"@;
                &&& open ==> x.traddr == e.host()
                &&& !open ==> Some(x.traddr) == t
                &&& v.text_at("nqn"@) is Some ==> Some(x.nqn) == v.text_at("nqn"@)
                &&& v.text_at("nqn"@) is None ==> x.nqn.len() == 0
                &&& v.number_at("nsid"@)->0 <= u32::MAX ==> x.nsid == v.number_at("nsid"@)->0
                &&& a.number_at("trsvcid"@) is None ==> x.trsvcid == 4420
                &&& a.number_at("trsvcid"@) is Some && a.number_at("trsvcid"@)->0 <= u16::MAX
                    ==> x.trsvcid == a.number_at("trsvcid"@)->0
            }
        }),
{
}

/// The items in an answer: of a list its own; of an object those under the
/// first key, or under the second where nothing stands under the first.
pub proof fn items_are_read_in_either_form(
    v: JsonView,
    first: Seq<char>,
    second: Seq<char>,
    l: Seq<JsonView>,
)
    ensures
        engine::items_in(JsonView::List(l), first, second) == l,
        v is Object && v.list_at(first) == Some(l) ==> engine::items_in(v, first, second) == l,
        v is Object && v.at(first) is None && v.list_at(second) == Some(l) ==> engine::items_in(
            v,
            first,
            second,
        ) == l,
        v is Object && v.at(first) is Some && v.list_at(first) is None ==> engine::items_in(
            v,
            first,
            second,
        ).len() == 0,
        v is Object && v.at(first) is None && v.list_at(second) is None ==> engine::items_in(
            v,
            first,
            second,
        ).len() == 0,
        !(v is Object) && !(v is List) ==> engine::items_in(v, first, second).len() == 0,
{
}

/// The volumes of a slab are those that its slots name, slot by slot.
pub proof fn slots_name_their_volumes(slots: Seq<JsonView>)
    ensures
        engine::slot_volumes(slots) == kept(
            slots,
            |s: JsonView| s.text_at("volume_id"@) is Some,
            |s: JsonView| s.text_at("volume_id"@)->0,
        ),
    decreases slots.len(),
{
    let p = |s: JsonView| s.text_at("volume_id"@) is Some;
    let f = |s: JsonView| s.text_at("volume_id"@)->0;
    if slots.len() == 0 {
        lists::kept_of_none(slots, p, f);
    } else {
        slots_name_their_volumes(slots.drop_last());
        lists::kept_of_more(slots, p, f);
    }
}

/// A drive that is open already is found by its path: the first one that has
/// that path and a uuid.
pub proof fn first_drive_of_the_path_is_found(drives: Seq<JsonView>, path: Seq<char>, k: int)
    requires
        0 <= k <= drives.len(),
        forall|j: int|
            0 <= j < k ==> !((#[trigger] drives[j]).text_at("path"@) == Some(path)
                && drives[j].text_at("uuid"@) is Some),
        k < drives.len() ==> drives[k].text_at("path"@) == Some(path) && drives[k].text_at("uuid"@)
            is Some,
    ensures
        engine::uuid_by_path(drives, path) == if k < drives.len() {
            drives[k].text_at("uuid"@)
        } else {
            None
        },
    decreases drives.len(),
{
    if drives.len() > 0 && k > 0 {
        let rest = drives.drop_first();
        assert(!(drives[0].text_at("path"@) == Some(path) && drives[0].text_at("uuid"@) is Some));
        assert forall|j: int| 0 <= j < k - 1 implies !((#[trigger] rest[j]).text_at("path"@)
            == Some(path) && rest[j].text_at("uuid"@) is Some) by {
            assert(!(drives[j + 1].text_at("path"@) == Some(path) && drives[j + 1].text_at("uuid"@)
                is Some));
        }
        first_drive_of_the_path_is_found(rest, path, k - 1);
    }
}

/// An answer is a success by its status alone, and what was to be deleted is
/// gone also where the engine did not find it.
pub proof fn status_decides(r: engine::ReplyView)
    ensures
        r.success() <==> r.status / 100 == 2,
        r.gone() <==> r.status / 100 == 2 || r.status == 404,
{
}

/// What an engine says of a failure is the text under the first key, or under
/// the second where nothing stands under the first.
pub proof fn failure_is_explained(body: JsonView, first: Seq<char>, second: Seq<char>, t: Seq<char>)
    ensures
        body.text_at(first) == Some(t) ==> engine::said(body, first, second) == t,
        body.at(first) is None && body.text_at(second) == Some(t) ==> engine::said(
            body,
            first,
            second,
        ) == t,
        body.at(first) is Some && body.text_at(first) is None ==> engine::said(body, first, second)
            == "no message"@,
        body.at(first) is None && body.text_at(second) is None ==> engine::said(
            body,
            first,
            second,
        ) == "no message"@,
{
}

/// A head opens a leg at the leg's address and port, under its name and
/// namespace.
pub proof fn drive_uri_has_every_coordinate(x: engine::AttachedLegView)
    ensures
        x.drive_uri() == "nvme-tcp://"@ + x.traddr + ":"@ + text::dec(x.trsvcid as nat) + "/"@
            + x.nqn + "?nsid="@ + text::dec(x.nsid as nat),
{
}

/// The host of an engine is what stands in its URL after the scheme, up to the
/// port or the path.
pub proof fn host_stands_between_scheme_and_port(
    e: EngineView,
    secure: bool,
    host: Seq<char>,
    tail: Seq<char>,
)
    requires
        !host.contains(':') && !host.contains('/'),
        tail.len() == 0 || tail[0] == '/' || (tail[0] == ':' && (tail.len() == 1 || tail[1]
            != '/')),
        e.url == if secure {
            "https://"@ + (host + tail)
        } else {
            "http://"@ + (host + tail)
        },
    ensures
        e.host() == host,
{
    reveal_strlit("http://");
    reveal_strlit("https://");
    let rest = host + tail;
    let (p, q) = ("http://"@, "https://"@);
    assert(!text::begins(rest, p)) by {
        if text::begins(rest, p) {
            assert(rest.take(p.len() as int)[4] == ':');
            assert(rest.take(p.len() as int)[5] == '/');
            assert forall|i: int| 0 <= i < 4 implies #[trigger] rest[i] != ':' && rest[i]
                != '/' by {
                assert(rest.take(p.len() as int)[i] == rest[i]);
            }
            no_scheme_within(host, tail, 4);
        }
    }
    assert(!text::begins(rest, q)) by {
        if text::begins(rest, q) {
            assert(rest.take(q.len() as int)[5] == ':');
            assert(rest.take(q.len() as int)[6] == '/');
            assert forall|i: int| 0 <= i < 5 implies #[trigger] rest[i] != ':' && rest[i]
                != '/' by {
                assert(rest.take(q.len() as int)[i] == rest[i]);
            }
            no_scheme_within(host, tail, 5);
        }
    }
    text_laws::start_is_trimmed(rest, p, rest);
    text_laws::start_is_trimmed(rest, q, rest);
    if secure {
        assert(!text::begins(e.url, p)) by {
            if text::begins(e.url, p) {
                assert(e.url.take(p.len() as int)[4] == ':');
                assert(e.url[4] == 's');
            }
        }
        text_laws::start_is_trimmed(e.url, p, rest);
    }
    assert(text::trimmed_start(text::trimmed_start(e.url, p), q) == rest);
    let k = host.len() as int;
    assert forall|i: int| 0 <= i < k implies #[trigger] rest[i] != ':' && rest[i] != '/' by {
        assert(host.contains(host[i]));
    }
    text_laws::host_ends_at_colon_or_slash(rest, k);
    assert(rest.take(k) =~= host);
}

proof fn no_scheme_within(host: Seq<char>, tail: Seq<char>, at: int)
    requires
        !host.contains(':') && !host.contains('/'),
        tail.len() == 0 || tail[0] == '/' || (tail[0] == ':' && (tail.len() == 1 || tail[1]
            != '/')),
        0 <= at,
        at + 1 < (host + tail).len(),
        forall|i: int|
            0 <= i < at ==> #[trigger] (host + tail)[i] != ':' && (host + tail)[i] != '/',
    ensures
        (host + tail)[at] != ':' || (host + tail)[at + 1] != '/',
{
    let rest = host + tail;
    if at < host.len() {
        assert(host.contains(host[at]));
    } else if at > host.len() {
        assert(rest[host.len() as int] == tail[0]);
    }
}

/// A JSON value is written piece by piece: a list as its items, an object as
/// its fields, each with a comma between each two.
pub proof fn json_is_written_piece_by_piece(
    l: Seq<JsonView>,
    o: Seq<(Seq<char>, JsonView)>,
    n: u64,
    s: Seq<char>,
)
    ensures
        json::written(JsonView::Null) == "null"@,
        json::written(JsonView::Bool(true)) == "true"@,
        json::written(JsonView::Bool(false)) == "false"@,
        json::written(JsonView::Unsigned(n)) == text::dec(n as nat),
        json::written(JsonView::Text(s)) == json::json_string_text(s),
        json::written(JsonView::List(l)) == "["@ + text::joined(
            l.map_values(|v: JsonView| json::written(v)),
            ","@,
        ) + "]"@,
        json::written(JsonView::Object(o)) == "{"@ + text::joined(
            o.map_values(
                |f: (Seq<char>, JsonView)| json::json_string_text(f.0) + ":"@ + json::written(f.1),
            ),
            ","@,
        ) + "}"@,
{
    assert(json::written_items(l) =~= l.map_values(|v: JsonView| json::written(v)));
    assert(json::written_fields(o) =~= o.map_values(
        |f: (Seq<char>, JsonView)| json::json_string_text(f.0) + ":"@ + json::written(f.1),
    ));
}

/// Nothing is read as a capacity in an answer without an object, and no master
/// in one without replicas.
pub proof fn nothing_is_read_in_nothing(v: JsonView)
    ensures
        !(v is Object) && !(v is List) ==> engine::capacity_in(v) is None,
        v is Object && v.at("total_bytes"@) is None && v.at("free_bytes"@) is None && v.list_at(
            "nodes"@,
        ) is None ==> engine::capacity_in(v) is None,
        v.list_at("replicas"@) is None ==> engine::master_node(v) is None,
{
}

/// A refusal is told with what was asked, the engine's status and its words.
pub proof fn refusal_is_told(r: engine::ReplyView, path: Seq<char>)
    ensures
        r.refusal(path) == path + ": "@ + r.status_text + ": "@ + engine::said(
            r.body,
            "message"@,
            "error"@,
        ),
        engine::open_refusal(path, r) == "open "@ + path + ": "@ + r.status_text + ": "@
            + engine::said(r.body, "error"@, "message"@),
{
}

} // verus!
