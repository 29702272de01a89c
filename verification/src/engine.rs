//! What is asked of a stormblock engine, and how its answers are read. The
//! control plane only ever drives engines: it is never in the data path.

use crate::json;
use crate::json::{Json, JsonView};
use crate::names::{Dup, NameMap};
use crate::text;
use vstd::prelude::*;
use vstd::string::*;

verus! {

/// One engine's management API.
#[derive(Debug)]
pub struct Engine {
    pub url: String,
    pub token: Option<String>,
}

/// What a [`Engine`] holds.
#[verifier::ext_equal]
pub struct EngineView {
    pub url: Seq<char>,
    pub token: Option<Seq<char>>,
}

impl View for Engine {
    type V = EngineView;

    open spec fn view(&self) -> EngineView {
        EngineView {
            url: self.url@,
            token: self.token.deep_view(),
        }
    }
}

impl DeepView for Engine {
    type V = EngineView;

    open spec fn deep_view(&self) -> EngineView {
        self@
    }
}

impl Dup for Engine {
    fn dup(&self) -> (r: Self) {
        Engine {
            url: self.url.clone(),
            token: self.token.dup(),
        }
    }
}

impl Clone for Engine {
    fn clone(&self) -> (r: Self)
        ensures
            r@ == self@,
    {
        self.dup()
    }
}

/// Where a leg's namespace answers: the attach coordinates the head node turns
/// into an `nvme-tcp://` drive URI.
#[derive(Debug)]
pub struct AttachedLeg {
    pub nqn: String,
    pub traddr: String,
    pub trsvcid: u16,
    pub nsid: u32,
}

/// What a [`AttachedLeg`] holds.
#[verifier::ext_equal]
pub struct AttachedLegView {
    pub nqn: Seq<char>,
    pub traddr: Seq<char>,
    pub trsvcid: u16,
    pub nsid: u32,
}

impl View for AttachedLeg {
    type V = AttachedLegView;

    open spec fn view(&self) -> AttachedLegView {
        AttachedLegView {
            nqn: self.nqn@,
            traddr: self.traddr@,
            trsvcid: self.trsvcid,
            nsid: self.nsid,
        }
    }
}

impl DeepView for AttachedLeg {
    type V = AttachedLegView;

    open spec fn deep_view(&self) -> AttachedLegView {
        self@
    }
}

impl Dup for AttachedLeg {
    fn dup(&self) -> (r: Self) {
        AttachedLeg {
            nqn: self.nqn.clone(),
            traddr: self.traddr.clone(),
            trsvcid: self.trsvcid,
            nsid: self.nsid,
        }
    }
}

impl Clone for AttachedLeg {
    fn clone(&self) -> (r: Self)
        ensures
            r@ == self@,
    {
        self.dup()
    }
}

#[derive(Debug)]
pub struct Capacity {
    pub total_bytes: u64,
    pub free_bytes: u64,
    pub topology: NameMap<String>,
}

/// What a [`Capacity`] holds.
#[verifier::ext_equal]
pub struct CapacityView {
    pub total_bytes: u64,
    pub free_bytes: u64,
    pub topology: Map<Seq<char>, Seq<char>>,
}

impl View for Capacity {
    type V = CapacityView;

    open spec fn view(&self) -> CapacityView {
        CapacityView {
            total_bytes: self.total_bytes,
            free_bytes: self.free_bytes,
            topology: self.topology@,
        }
    }
}

impl DeepView for Capacity {
    type V = CapacityView;

    open spec fn deep_view(&self) -> CapacityView {
        self@
    }
}

impl Dup for Capacity {
    fn dup(&self) -> (r: Self) {
        Capacity {
            total_bytes: self.total_bytes,
            free_bytes: self.free_bytes,
            topology: self.topology.dup(),
        }
    }
}

impl Clone for Capacity {
    fn clone(&self) -> (r: Self)
        ensures
            r@ == self@,
    {
        self.dup()
    }
}

/// What an engine has heard of the nodes around it.
#[derive(Debug)]
pub struct Discovery {
    /// The engine's own name; empty where it has none.
    pub local_node: String,
    pub cluster_id: Option<String>,
    pub nodes: Vec<DiscoveredNode>,
}

/// What a [`Discovery`] holds.
#[verifier::ext_equal]
pub struct DiscoveryView {
    pub local_node: Seq<char>,
    pub cluster_id: Option<Seq<char>>,
    pub nodes: Seq<DiscoveredNodeView>,
}

impl View for Discovery {
    type V = DiscoveryView;

    open spec fn view(&self) -> DiscoveryView {
        DiscoveryView {
            local_node: self.local_node@,
            cluster_id: self.cluster_id.deep_view(),
            nodes: self.nodes.deep_view(),
        }
    }
}

impl DeepView for Discovery {
    type V = DiscoveryView;

    open spec fn deep_view(&self) -> DiscoveryView {
        self@
    }
}

impl Dup for Discovery {
    fn dup(&self) -> (r: Self) {
        Discovery {
            local_node: self.local_node.clone(),
            cluster_id: self.cluster_id.dup(),
            nodes: self.nodes.dup(),
        }
    }
}

impl Clone for Discovery {
    fn clone(&self) -> (r: Self)
        ensures
            r@ == self@,
    {
        self.dup()
    }
}

#[derive(Debug)]
pub struct DiscoveredNode {
    pub node_name: String,
    pub mgmt_addr: String,
    pub cluster_id: Option<String>,
    /// Whether it has not been heard of lately.
    pub stale: bool,
}

/// What a [`DiscoveredNode`] holds.
#[verifier::ext_equal]
pub struct DiscoveredNodeView {
    pub node_name: Seq<char>,
    pub mgmt_addr: Seq<char>,
    pub cluster_id: Option<Seq<char>>,
    pub stale: bool,
}

impl View for DiscoveredNode {
    type V = DiscoveredNodeView;

    open spec fn view(&self) -> DiscoveredNodeView {
        DiscoveredNodeView {
            node_name: self.node_name@,
            mgmt_addr: self.mgmt_addr@,
            cluster_id: self.cluster_id.deep_view(),
            stale: self.stale,
        }
    }
}

impl DeepView for DiscoveredNode {
    type V = DiscoveredNodeView;

    open spec fn deep_view(&self) -> DiscoveredNodeView {
        self@
    }
}

impl Dup for DiscoveredNode {
    fn dup(&self) -> (r: Self) {
        DiscoveredNode {
            node_name: self.node_name.clone(),
            mgmt_addr: self.mgmt_addr.clone(),
            cluster_id: self.cluster_id.dup(),
            stale: self.stale,
        }
    }
}

impl Clone for DiscoveredNode {
    fn clone(&self) -> (r: Self)
        ensures
            r@ == self@,
    {
        self.dup()
    }
}

impl AttachedLegView {
    /// The URI under which a head opens the leg as a drive.
    pub open spec fn drive_uri(self) -> Seq<char> {
        "nvme-tcp://"@ + self.traddr + ":"@ + text::dec(self.trsvcid as nat) + "/"@ + self.nqn
            + "?nsid="@ + text::dec(self.nsid as nat)
    }
}

impl AttachedLeg {
    /// The URI under which a head opens the leg as a drive.
    pub fn drive_uri(&self) -> (r: String)
        ensures
            r@ == self@.drive_uri(),
    {
        text::owned("nvme-tcp://").concat(self.traddr.as_str()).concat(":").concat(
            text::decimal(self.trsvcid as u64).as_str(),
        ).concat("/").concat(self.nqn.as_str()).concat("?nsid=").concat(
            text::decimal(self.nsid as u64).as_str(),
        )
    }
}

impl Default for Capacity {
    fn default() -> (r: Self)
        ensures
            r@ == (CapacityView { total_bytes: 0, free_bytes: 0, topology: Map::empty() }),
    {
        Capacity { total_bytes: 0, free_bytes: 0, topology: NameMap::new() }
    }
}

#[derive(Debug, Clone, Copy, PartialEq, Eq, Structural)]
pub enum Method {
    Get,
    Post,
    Delete,
}

/// A request to an engine.
#[derive(Debug)]
pub struct Call {
    pub method: Method,
    pub url: String,
    /// The bearer token to send, if any.
    pub token: Option<String>,
    /// The JSON body to send, if any.
    pub body: Option<Json>,
}

/// What a [`Call`] asks.
#[verifier::ext_equal]
pub struct CallView {
    pub method: Method,
    pub url: Seq<char>,
    pub token: Option<Seq<char>>,
    pub body: Option<JsonView>,
}

impl View for Call {
    type V = CallView;

    open spec fn view(&self) -> CallView {
        CallView {
            method: self.method,
            url: self.url@,
            token: self.token.deep_view(),
            body: self.body.deep_view(),
        }
    }
}

impl DeepView for Call {
    type V = CallView;

    open spec fn deep_view(&self) -> CallView {
        self@
    }
}

/// An engine's answer to a call.
#[derive(Debug)]
pub struct Reply {
    pub status: u16,
    /// The status in words, e.g. `404 Not Found`.
    pub status_text: String,
    /// The body; null where it is no JSON.
    pub body: Json,
}

/// What a [`Reply`] says.
#[verifier::ext_equal]
pub struct ReplyView {
    pub status: u16,
    pub status_text: Seq<char>,
    pub body: JsonView,
}

impl View for Reply {
    type V = ReplyView;

    open spec fn view(&self) -> ReplyView {
        ReplyView { status: self.status, status_text: self.status_text@, body: self.body@ }
    }
}

impl DeepView for Reply {
    type V = ReplyView;

    open spec fn deep_view(&self) -> ReplyView {
        self@
    }
}

/// The text under `first`, or under `second` where nothing stands under
/// `first`; `no message` where there is no such text.
pub open spec fn said(body: JsonView, first: Seq<char>, second: Seq<char>) -> Seq<char> {
    let v = match body.at(first) {
        Some(v) => Some(v),
        None => body.at(second),
    };
    match v {
        Some(v) => match v.text() {
            Some(t) => t,
            None => "no message"@,
        },
        None => "no message"@,
    }
}

fn message(body: &Json, first: &str, second: &str) -> (r: String)
    ensures
        r@ == said(body@, first@, second@),
{
    let v: Option<&Json> = match body.at(first) {
        Some(v) => Some(v),
        None => body.at(second),
    };
    match v {
        Some(v) => match v.text() {
            Some(t) => t.clone(),
            None => text::owned("no message"),
        },
        None => text::owned("no message"),
    }
}

impl ReplyView {
    pub open spec fn success(self) -> bool {
        200 <= self.status < 300
    }

    /// Whether what was to be deleted is gone: also where it was not there.
    pub open spec fn gone(self) -> bool {
        self.success() || self.status == 404
    }

    /// How the engine refused a request to `path`.
    pub open spec fn refusal(self, path: Seq<char>) -> Seq<char> {
        path + ": "@ + self.status_text + ": "@ + said(self.body, "message"@, "error"@)
    }
}

impl Reply {
    pub fn success(&self) -> (r: bool)
        ensures
            r == self@.success(),
    {
        200 <= self.status && self.status < 300
    }

    fn gone(&self) -> (r: bool)
        ensures
            r == self@.gone(),
    {
        self.success() || self.status == 404
    }

    /// The body of an answer to a request to `path`, or how it was refused.
    pub fn accepted(self, path: &str) -> (r: Result<Json, String>)
        ensures
            r is Ok <==> self@.success(),
            r matches Ok(body) ==> body@ == self@.body,
            r matches Err(e) ==> e@ == self@.refusal(path@),
    {
        if self.success() {
            Ok(self.body)
        } else {
            Err(
                text::owned(path).concat(": ").concat(self.status_text.as_str()).concat(
                    ": ",
                ).concat(message(&self.body, "message", "error").as_str()),
            )
        }
    }
}

impl EngineView {
    /// The engine at `url`.
    pub open spec fn at(url: Seq<char>, token: Option<Seq<char>>) -> Self {
        EngineView { url: text::trimmed_end(url, '/'), token }
    }

    /// A request to this engine. An empty token is not sent.
    pub open spec fn call(self, method: Method, path: Seq<char>, body: Option<JsonView>) -> CallView {
        CallView {
            method,
            url: self.url + path,
            token: match self.token {
                Some(t) => if t.len() > 0 {
                    Some(t)
                } else {
                    None
                },
                None => None,
            },
            body,
        }
    }

    /// The host part of the URL.
    pub open spec fn host(self) -> Seq<char> {
        text::host_part(
            text::trimmed_start(text::trimmed_start(self.url, "http://"@), "https://"@),
        )
    }
}

/// Whether the text is empty.
fn blank(s: &str) -> (r: bool)
    ensures
        r == (s@.len() == 0),
{
    proof {
        reveal_strlit("");
        if s@.len() == 0 {
            assert(s@ =~= ""@);
        }
    }
    text::same(s, "")
}

/// The path of a volume's attach endpoint.
pub open spec fn attach_path(id: Seq<char>) -> Seq<char> {
    "/v1/volumes/"@ + id + "/attach"@
}

/// The path of a volume's detach endpoint.
pub open spec fn detach_path(id: Seq<char>) -> Seq<char> {
    "/v1/volumes/"@ + id + "/detach"@
}

/// The path of an array's members.
pub open spec fn members_path(array_id: Seq<char>) -> Seq<char> {
    "/api/v1/arrays/"@ + array_id + "/members"@
}

/// The path of a drive, by its id or its own path.
pub open spec fn drive_path(id_or_path: Seq<char>, force: bool) -> Seq<char> {
    "/api/v1/drives/"@ + text::path_segment(id_or_path) + if force {
        "?force=true"@
    } else {
        ""@
    }
}

/// The body that asks for a volume with no replica of the engine's own: a leg
/// is a standalone volume.
pub open spec fn volume_request(name: Seq<char>, size_bytes: u64) -> JsonView {
    JsonView::Object(
        seq![
            ("name"@, JsonView::Text(name)),
            ("size_bytes"@, JsonView::Unsigned(size_bytes)),
            ("replica_tier"@, JsonView::Object(seq![("slaves"@, JsonView::Unsigned(0))])),
        ],
    )
}

/// The body that asks for a mirror across drives.
pub open spec fn raid1_request(drive_uuids: Seq<Seq<char>>) -> JsonView {
    JsonView::Object(
        seq![
            ("level"@, JsonView::Text("Raid1"@)),
            (
                "drive_uuids"@,
                JsonView::List(
                    Seq::new(drive_uuids.len(), |i: int| JsonView::Text(drive_uuids[i])),
                ),
            ),
        ],
    )
}

impl Engine {
    /// The engine at `url`, with or without slashes at its end.
    pub fn new(url: &str, token: Option<String>) -> (r: Self)
        ensures
            r@ == EngineView::at(url@, token.deep_view()),
    {
        Engine { url: text::trim_end(url, '/'), token }
    }

    /// A request to this engine.
    pub fn call(&self, method: Method, path: &str, body: Option<Json>) -> (r: Call)
        ensures
            r@ == self@.call(method, path@, body.deep_view()),
    {
        let token: Option<String> = match &self.token {
            Some(t) => if blank(t.as_str()) {
                None
            } else {
                Some(t.clone())
            },
            None => None,
        };
        Call { method, url: self.url.clone().concat(path), token, body }
    }

    /// Asks for the node's capacity.
    pub fn capacity(&self) -> (r: Call)
        ensures
            r@ == self@.call(Method::Get, "/v1/nodes/capacity"@, None),
    {
        self.call(Method::Get, "/v1/nodes/capacity", None)
    }

    /// Asks for a volume: creating is idempotent by name. `slaves: 0`, as
    /// redundancy across nodes is made of legs, not by the engine.
    pub fn create_volume(&self, name: &str, size_bytes: u64) -> (r: Call)
        ensures
            r@ == self@.call(
                Method::Post,
                "/v1/volumes"@,
                Some(volume_request(name@, size_bytes)),
            ),
    {
        let tier: Json = json::object1("slaves", Json::Unsigned(0));
        let body: Json = json::object3(
            "name",
            Json::text_of(name),
            "size_bytes",
            Json::Unsigned(size_bytes),
            "replica_tier",
            tier,
        );
        self.call(Method::Post, "/v1/volumes", Some(body))
    }

    /// Asks for the volume as an NVMe-TCP namespace. `node` must be the
    /// volume's master node.
    pub fn attach_volume(&self, id: &str, node: &str) -> (r: Call)
        ensures
            r@ == self@.call(
                Method::Post,
                attach_path(id@),
                Some(
                    JsonView::Object(
                        seq![
                            ("node"@, JsonView::Text(node@)),
                            ("mode"@, JsonView::Text("read_write"@)),
                        ],
                    ),
                ),
            ),
    {
        let path: String = text::owned("/v1/volumes/").concat(id).concat("/attach");
        let body: Json = json::object2(
            "node",
            Json::text_of(node),
            "mode",
            Json::text_of("read_write"),
        );
        self.call(Method::Post, path.as_str(), Some(body))
    }

    /// Asks for the namespace to be taken down.
    pub fn detach_volume(&self, id: &str, node: &str) -> (r: Call)
        ensures
            r@ == self@.call(
                Method::Post,
                detach_path(id@),
                Some(JsonView::Object(seq![("node"@, JsonView::Text(node@))])),
            ),
    {
        let path: String = text::owned("/v1/volumes/").concat(id).concat("/detach");
        let body: Json = json::object1("node", Json::text_of(node));
        self.call(Method::Post, path.as_str(), Some(body))
    }

    /// Asks for a RAID1 across already-opened drives.
    pub fn create_raid1(&self, drive_uuids: &Vec<String>) -> (r: Call)
        ensures
            r@ == self@.call(
                Method::Post,
                "/api/v1/arrays"@,
                Some(raid1_request(drive_uuids.deep_view())),
            ),
    {
        let body: Json = json::object2(
            "level",
            Json::text_of("Raid1"),
            "drive_uuids",
            json::text_list(drive_uuids),
        );
        assert(body@ == raid1_request(drive_uuids.deep_view()));
        self.call(Method::Post, "/api/v1/arrays", Some(body))
    }

    /// Asks for an array and the state of its members.
    pub fn get_array(&self, id: &str) -> (r: Call)
        ensures
            r@ == self@.call(Method::Get, "/api/v1/arrays/"@ + id@, None),
    {
        let path: String = text::owned("/api/v1/arrays/").concat(id);
        self.call(Method::Get, path.as_str(), None)
    }

    /// Asks for an array to be deleted.
    pub fn delete_array(&self, id: &str) -> (r: Call)
        ensures
            r@ == self@.call(Method::Delete, "/api/v1/arrays/"@ + id@, None),
    {
        let path: String = text::owned("/api/v1/arrays/").concat(id);
        self.call(Method::Delete, path.as_str(), None)
    }

    /// Asks for a drive to become a member of an array.
    pub fn array_add_member(&self, array_id: &str, drive_uuid: &str) -> (r: Call)
        ensures
            r@ == self@.call(
                Method::Post,
                members_path(array_id@),
                Some(JsonView::Object(seq![("drive_uuid"@, JsonView::Text(drive_uuid@))])),
            ),
    {
        let path: String = text::owned("/api/v1/arrays/").concat(array_id).concat("/members");
        let body: Json = json::object1("drive_uuid", Json::text_of(drive_uuid));
        self.call(Method::Post, path.as_str(), Some(body))
    }

    /// Asks for a member to leave an array.
    pub fn array_remove_member(&self, array_id: &str, member_uuid: &str) -> (r: Call)
        ensures
            r@ == self@.call(
                Method::Delete,
                members_path(array_id@) + "/"@ + member_uuid@,
                None,
            ),
    {
        let path: String = text::owned("/api/v1/arrays/").concat(array_id).concat(
            "/members",
        ).concat("/").concat(member_uuid);
        self.call(Method::Delete, path.as_str(), None)
    }

    /// Asks for the engine's open drives.
    pub fn list_drives(&self) -> (r: Call)
        ensures
            r@ == self@.call(Method::Get, "/api/v1/drives"@, None),
    {
        self.call(Method::Get, "/api/v1/drives", None)
    }

    /// Asks for a drive or URI to be opened. Where it is open already, its uuid
    /// is to be looked up among the open drives: see [`drive_opened`].
    pub fn add_drive_idempotent(&self, path: &str) -> (r: Call)
        ensures
            r@ == self@.call(
                Method::Post,
                "/api/v1/drives"@,
                Some(JsonView::Object(seq![("path"@, JsonView::Text(path@))])),
            ),
    {
        let body: Json = json::object1("path", Json::text_of(path));
        self.call(Method::Post, "/api/v1/drives", Some(body))
    }

    /// Asks for an opened drive to be closed.
    pub fn delete_drive(&self, id_or_path: &str, force: bool) -> (r: Call)
        ensures
            r@ == self@.call(Method::Delete, drive_path(id_or_path@, force), None),
    {
        let path: String = text::owned("/api/v1/drives/").concat(
            text::as_segment(id_or_path).as_str(),
        ).concat(
            if force {
                "?force=true"
            } else {
                ""
            },
        );
        self.call(Method::Delete, path.as_str(), None)
    }

    /// Asks for a volume to be deleted.
    pub fn delete_volume(&self, id: &str) -> (r: Call)
        ensures
            r@ == self@.call(Method::Delete, "/v1/volumes/"@ + id@, None),
    {
        let path: String = text::owned("/v1/volumes/").concat(id);
        self.call(Method::Delete, path.as_str(), None)
    }

    /// Asks for the engine's volumes.
    pub fn list_volumes(&self) -> (r: Call)
        ensures
            r@ == self@.call(Method::Get, "/v1/volumes"@, None),
    {
        self.call(Method::Get, "/v1/volumes", None)
    }

    /// Asks what the engine has heard of the nodes around it.
    pub fn discovery(&self) -> (r: Call)
        ensures
            r@ == self@.call(Method::Get, "/api/v1/discovery"@, None),
    {
        self.call(Method::Get, "/api/v1/discovery", None)
    }

    /// Asks for the engine's slabs.
    pub fn list_slabs(&self) -> (r: Call)
        ensures
            r@ == self@.call(Method::Get, "/api/v1/slabs"@, None),
    {
        self.call(Method::Get, "/api/v1/slabs", None)
    }

    /// Asks for the engine's volumes with what they take up.
    pub fn list_engine_volumes(&self) -> (r: Call)
        ensures
            r@ == self@.call(Method::Get, "/api/v1/volumes"@, None),
    {
        self.call(Method::Get, "/api/v1/volumes", None)
    }

    /// Asks for a slab's slot table.
    pub fn slab_slots(&self, id: &str) -> (r: Call)
        ensures
            r@ == self@.call(Method::Get, "/api/v1/slabs/"@ + id@ + "/slots"@, None),
    {
        let path: String = text::owned("/api/v1/slabs/").concat(id).concat("/slots");
        self.call(Method::Get, path.as_str(), None)
    }

    /// The host portion of the engine URL.
    pub fn host(&self) -> (r: String)
        ensures
            r@ == self@.host(),
    {
        let rest: String = text::trim_start(self.url.as_str(), "http://");
        let rest: String = text::trim_start(rest.as_str(), "https://");
        text::until_colon_or_slash(rest.as_str())
    }

    /// The engine's own node name for a volume: read-write attach is gated on
    /// asking as the master node.
    pub fn master_node_of(v: &Json) -> (r: Option<String>)
        ensures
            r.deep_view() == master_node(v@),
    {
        match v.list_at("replicas") {
            Some(l) => {
                let ghost all = l.deep_view();
                let mut i: usize = 0;
                assert(all.skip(0) =~= all);
                while i < l.len()
                    invariant
                        i <= l.len(),
                        all == l.deep_view(),
                        v@.list_at("replicas"@) == Some(all),
                        first_master(all) == first_master(all.skip(i as int)),
                    decreases l.len() - i,
                {
                    let r: &Json = &l[i];
                    assert(all.skip(i as int)[0] == r@);
                    assert(all.skip(i as int).drop_first() =~= all.skip(i + 1));
                    let is_master: bool = match r.text_at("role") {
                        Some(role) => text::same(role.as_str(), "master"),
                        None => false,
                    };
                    if is_master {
                        return match r.text_at("node") {
                            Some(n) => Some(n.clone()),
                            None => None,
                        };
                    }
                    i = i + 1;
                }
                None
            },
            None => None,
        }
    }
}

/// The first of the replicas that is the master.
pub open spec fn first_master(replicas: Seq<JsonView>) -> Option<JsonView>
    decreases replicas.len(),
{
    if replicas.len() == 0 {
        None
    } else if replicas[0].text_at("role"@) == Some("master"@) {
        Some(replicas[0])
    } else {
        first_master(replicas.drop_first())
    }
}

/// The node of the volume's master replica.
pub open spec fn master_node(v: JsonView) -> Option<Seq<char>> {
    match v.list_at("replicas"@) {
        Some(l) => match first_master(l) {
            Some(r) => r.text_at("node"@),
            None => None,
        },
        None => None,
    }
}

/// Whether the value is an object that carries capacity fields.
pub open spec fn carries_capacity(v: JsonView) -> bool {
    v is Object && (v.at("total_bytes"@) is Some || v.at("free_bytes"@) is Some)
}

/// The first of a list that is an object carrying capacity fields.
pub open spec fn first_carrying(l: Seq<JsonView>) -> Option<JsonView>
    decreases l.len(),
{
    if l.len() == 0 {
        None
    } else if carries_capacity(l[0]) {
        Some(l[0])
    } else {
        first_carrying(l.drop_first())
    }
}

/// The first object carrying capacity fields in whatever wrapper the engine
/// used: a bare object, a list, or one with a list under `nodes`.
pub open spec fn capacity_object(v: JsonView) -> Option<JsonView> {
    match v {
        JsonView::Object(_) => if carries_capacity(v) {
            Some(v)
        } else {
            match v.list_at("nodes"@) {
                Some(l) => first_carrying(l),
                None => None,
            }
        },
        JsonView::List(l) => first_carrying(l),
        _ => None,
    }
}

/// What is found as the capacity object carries capacity fields.
pub proof fn capacity_object_carries(v: JsonView)
    ensures
        capacity_object(v) matches Some(o) ==> carries_capacity(o),
{
    if let JsonView::List(l) = v {
        first_carrying_is_first(l);
    }
    if let Some(l) = v.list_at("nodes"@) {
        first_carrying_is_first(l);
    }
}

/// In a list the first object that carries capacity fields is found, whatever
/// stands before it; nothing is found only where there is none.
pub proof fn first_carrying_is_first(l: Seq<JsonView>)
    ensures
        match first_carrying(l) {
            Some(o) => exists|i: int|
                0 <= i < l.len() && #[trigger] l[i] == o && carries_capacity(o) && forall|j: int|
                    0 <= j < i ==> !carries_capacity(#[trigger] l[j]),
            None => forall|j: int| 0 <= j < l.len() ==> !carries_capacity(#[trigger] l[j]),
        },
    decreases l.len(),
{
    if l.len() > 0 && !carries_capacity(l[0]) {
        let rest = l.drop_first();
        first_carrying_is_first(rest);
        assert(forall|j: int| 0 <= j < rest.len() ==> #[trigger] rest[j] == l[j + 1]);
        match first_carrying(l) {
            Some(o) => {
                let i = choose|i: int|
                    0 <= i < rest.len() && #[trigger] rest[i] == o && carries_capacity(o)
                        && forall|j: int|
                        0 <= j < i ==> !carries_capacity(#[trigger] rest[j]);
                assert(l[i + 1] == o);
                assert forall|j: int| 0 <= j < i + 1 implies !carries_capacity(
                    #[trigger] l[j],
                ) by {
                    if j > 0 {
                        assert(rest[j - 1] == l[j]);
                    }
                }
            },
            None => {
                assert forall|j: int| 0 <= j < l.len() implies !carries_capacity(
                    #[trigger] l[j],
                ) by {
                    if j > 0 {
                        assert(rest[j - 1] == l[j]);
                    }
                }
            },
        }
    }
}

fn does_carry(v: &Json) -> (r: bool)
    ensures
        r == carries_capacity(v@),
{
    match v {
        Json::Object(_) => v.at("total_bytes").is_some() || v.at("free_bytes").is_some(),
        _ => false,
    }
}

fn first_carrying_of(l: &Vec<Json>) -> (r: Option<&Json>)
    ensures
        r.deep_view() == first_carrying(l.deep_view()),
{
    let ghost all = l.deep_view();
    let mut i: usize = 0;
    assert(all.skip(0) =~= all);
    while i < l.len()
        invariant
            i <= l.len(),
            all == l.deep_view(),
            first_carrying(all) == first_carrying(all.skip(i as int)),
        decreases l.len() - i,
    {
        assert(all.skip(i as int)[0] == l[i as int]@);
        assert(all.skip(i as int).drop_first() =~= all.skip(i + 1));
        if does_carry(&l[i]) {
            return Some(&l[i]);
        }
        i = i + 1;
    }
    None
}

/// Find the first object carrying capacity fields in whatever wrapper the
/// engine used: bare object, array, or one with a list under `nodes`.
pub fn first_capacity_object(v: &Json) -> (r: Option<&Json>)
    ensures
        r.deep_view() == capacity_object(v@),
{
    match v {
        Json::Object(_) => if does_carry(v) {
            Some(v)
        } else {
            match v.list_at("nodes") {
                Some(l) => first_carrying_of(l),
                None => None,
            }
        },
        Json::List(l) => {
            assert(l.deep_view() =~= v@->List_0);
            first_carrying_of(l)
        },
        _ => None,
    }
}

/// The fields that are texts; the last where one name stands several times.
pub open spec fn text_fields(fields: Seq<(Seq<char>, JsonView)>) -> Map<Seq<char>, Seq<char>>
    decreases fields.len(),
{
    if fields.len() == 0 {
        Map::empty()
    } else {
        let front = text_fields(fields.drop_last());
        match fields.last().1.text() {
            Some(t) => front.insert(fields.last().0, t),
            None => front,
        }
    }
}

/// The number under `key`; zero where there is none.
pub open spec fn count_at(v: JsonView, key: Seq<char>) -> u64 {
    match v.number_at(key) {
        Some(n) => n,
        None => 0,
    }
}

/// What an engine's answer says of its capacity.
pub open spec fn capacity_in(v: JsonView) -> Option<CapacityView> {
    match capacity_object(v) {
        Some(o) => Some(
            CapacityView {
                total_bytes: count_at(o, "total_bytes"@),
                free_bytes: count_at(o, "free_bytes"@),
                topology: match o.at("topology"@) {
                    Some(JsonView::Object(fields)) => text_fields(fields),
                    _ => Map::empty(),
                },
            },
        ),
        None => None,
    }
}

fn count(v: &Json, key: &str) -> (r: u64)
    ensures
        r == count_at(v@, key@),
{
    match v.number_at(key) {
        Some(n) => n,
        None => 0,
    }
}

/// What an engine's answer says of its capacity.
pub fn read_capacity(v: &Json) -> (r: Result<Capacity, String>)
    ensures
        r is Ok <==> capacity_in(v@) is Some,
        r matches Ok(c) ==> Some(c@) == capacity_in(v@),
        r matches Err(e) ==> e@ == "unrecognized capacity shape: "@ + json::written(v@),
{
    match first_capacity_object(v) {
        Some(o) => {
            let mut topology: NameMap<String> = NameMap::new();
            if let Some(t) = o.at("topology") {
                if let Json::Object(fields) = t {
                    let ghost all = t@->Object_0;
                    let mut i: usize = 0;
                    assert(all.take(0) =~= Seq::<(Seq<char>, JsonView)>::empty());
                    while i < fields.len()
                        invariant
                            i <= fields.len(),
                            *t == Json::Object(*fields),
                            all == t@->Object_0,
                            topology@ == text_fields(all.take(i as int)),
                        decreases fields.len() - i,
                    {
                        assert(all.take(i + 1).drop_last() =~= all.take(i as int));
                        assert(all.take(i + 1).last() == (fields[i as int].0@, fields[i as int].1@));
                        if let Some(s) = fields[i].1.text() {
                            topology.insert(fields[i].0.clone(), s.clone());
                        }
                        i = i + 1;
                    }
                    assert(all.take(i as int) =~= all);
                }
            }
            Ok(
                Capacity {
                    total_bytes: count(o, "total_bytes"),
                    free_bytes: count(o, "free_bytes"),
                    topology,
                },
            )
        },
        None => Err(
            text::owned("unrecognized capacity shape: ").concat(json::write_json(v).as_str()),
        ),
    }
}

/// The volume that an engine made, or why it made none.
pub fn volume_created(name: &str, reply: Reply) -> (r: Result<Json, String>)
    ensures
        r is Ok <==> reply@.success(),
        r matches Ok(v) ==> v@ == reply@.body,
        r matches Err(e) ==> e@ == "create "@ + name@ + ": "@ + reply@.status_text + ": "@ + said(
            reply@.body,
            "message"@,
            "message"@,
        ),
{
    if reply.success() {
        Ok(reply.body)
    } else {
        Err(
            text::owned("create ").concat(name).concat(": ").concat(
                reply.status_text.as_str(),
            ).concat(": ").concat(message(&reply.body, "message", "message").as_str()),
        )
    }
}

/// The address part of an attach answer.
pub open spec fn first_address(v: JsonView) -> Option<JsonView> {
    match v.list_at("addresses"@) {
        Some(l) => if l.len() > 0 {
            Some(l[0])
        } else {
            None
        },
        None => None,
    }
}

/// The text under `key`; none where there is no such text.
pub open spec fn words_at(v: JsonView, key: Seq<char>) -> Seq<char> {
    match v.text_at(key) {
        Some(t) => t,
        None => Seq::empty(),
    }
}

/// Whether an address is of no use to a remote initiator.
pub open spec fn wildcard(traddr: Seq<char>) -> bool {
    traddr.len() == 0 || traddr == "0.0.0.0"@ || traddr == "::"@
}

/// The coordinates that an accepted attach gives, or what is missing in it. A
/// wildcard listen address is replaced by the engine's own host.
pub open spec fn coordinates(engine: EngineView, id: Seq<char>, v: JsonView) -> Result<
    AttachedLegView,
    Seq<char>,
> {
    let address = first_address(v);
    if v.text_at("transport"@) != Some("nvme_tcp"@) {
        Err("attach "@ + id + ": unexpected transport in "@ + json::written(v))
    } else if address is None {
        Err("attach "@ + id + ": no addresses in "@ + json::written(v))
    } else if v.number_at("nsid"@) is None {
        Err(
            "attach "@ + id
                + ": engine returned no nsid — its NVMe-oF target is not running (an engine started without an export device has no listener)"@,
        )
    } else {
        let traddr = words_at(address->0, "traddr"@);
        let port = match (address->0).number_at("trsvcid"@) {
            Some(p) => p,
            None => 4420,
        };
        Ok(
            AttachedLegView {
                nqn: words_at(v, "nqn"@),
                traddr: if wildcard(traddr) {
                    engine.host()
                } else {
                    traddr
                },
                trsvcid: (port % 0x1_0000) as u16,
                nsid: (v.number_at("nsid"@)->0 % 0x1_0000_0000) as u32,
            },
        )
    }
}

fn words(v: &Json, key: &str) -> (r: String)
    ensures
        r@ == words_at(v@, key@),
{
    match v.text_at(key) {
        Some(t) => t.clone(),
        None => String::new(),
    }
}

/// The coordinates of an attached volume, or why it could not be attached.
pub fn volume_attached(engine: &Engine, id: &str, reply: Reply) -> (r: Result<AttachedLeg, String>)
    ensures
        !reply@.success() ==> r is Err,
        reply@.success() ==> (r is Ok <==> coordinates(engine@, id@, reply@.body) is Ok),
        r matches Ok(a) ==> reply@.success() && coordinates(engine@, id@, reply@.body) == Ok::<
            AttachedLegView,
            Seq<char>,
        >(a@),
        r matches Err(e) ==> e@ == if reply@.success() {
            coordinates(engine@, id@, reply@.body)->Err_0
        } else {
            reply@.refusal(attach_path(id@))
        },
{
    let path: String = text::owned("/v1/volumes/").concat(id).concat("/attach");
    let v: Json = match reply.accepted(path.as_str()) {
        Ok(v) => v,
        Err(e) => {
            return Err(e);
        },
    };
    let over_tcp: bool = match v.text_at("transport") {
        Some(t) => text::same(t.as_str(), "nvme_tcp"),
        None => false,
    };
    if !over_tcp {
        return Err(
            text::owned("attach ").concat(id).concat(": unexpected transport in ").concat(
                json::write_json(&v).as_str(),
            ),
        );
    }
    let addresses: Option<&Vec<Json>> = v.list_at("addresses");
    let address: Option<&Json> = match addresses {
        Some(l) => if l.len() > 0 {
            assert(l.deep_view()[0] == l[0]@);
            Some(&l[0])
        } else {
            None
        },
        None => None,
    };
    assert(address.deep_view() == first_address(v@));
    match address {
        None => Err(
            text::owned("attach ").concat(id).concat(": no addresses in ").concat(
                json::write_json(&v).as_str(),
            ),
        ),
        Some(address) => {
            let mut traddr: String = words(address, "traddr");
            let port: u64 = match address.number_at("trsvcid") {
                Some(p) => p,
                None => 4420,
            };
            if blank(traddr.as_str()) || text::same(traddr.as_str(), "0.0.0.0") || text::same(
                traddr.as_str(),
                "::",
            ) {
                traddr = engine.host();
            }
            match v.number_at("nsid") {
                None => Err(
                    text::owned("attach ").concat(id).concat(
                        ": engine returned no nsid — its NVMe-oF target is not running (an engine started without an export device has no listener)",
                    ),
                ),
                Some(n) => Ok(
                    AttachedLeg {
                        nqn: words(&v, "nqn"),
                        traddr,
                        trsvcid: (port % 0x1_0000) as u16,
                        nsid: (n % 0x1_0000_0000) as u32,
                    },
                ),
            }
        },
    }
}

/// Whether a volume was detached; if not, how the engine refused.
pub fn volume_detached(id: &str, reply: Reply) -> (r: Result<(), String>)
    ensures
        r is Ok <==> reply@.success(),
        r matches Err(e) ==> e@ == reply@.refusal(detach_path(id@)),
{
    let path: String = text::owned("/v1/volumes/").concat(id).concat("/detach");
    match reply.accepted(path.as_str()) {
        Ok(_) => Ok(()),
        Err(e) => Err(e),
    }
}

/// The array that an engine made, or how it refused.
pub fn array_created(reply: Reply) -> (r: Result<Json, String>)
    ensures
        r is Ok <==> reply@.success(),
        r matches Ok(v) ==> v@ == reply@.body,
        r matches Err(e) ==> e@ == reply@.refusal("/api/v1/arrays"@),
{
    reply.accepted("/api/v1/arrays")
}

/// Whether something is gone after a delete, where `what` says which; if not,
/// the engine's status.
fn deleted(what: &str, id: &str, reply: &Reply) -> (r: Result<(), String>)
    ensures
        r is Ok <==> reply@.gone(),
        r matches Err(e) ==> e@ == what@ + id@ + ": "@ + reply@.status_text,
{
    if reply.gone() {
        Ok(())
    } else {
        Err(text::owned(what).concat(id).concat(": ").concat(reply.status_text.as_str()))
    }
}

/// Whether an array is gone.
pub fn array_deleted(id: &str, reply: &Reply) -> (r: Result<(), String>)
    ensures
        r is Ok <==> reply@.gone(),
        r matches Err(e) ==> e@ == "delete array "@ + id@ + ": "@ + reply@.status_text,
{
    deleted("delete array ", id, reply)
}

/// Whether a volume is gone: deletion is idempotent.
pub fn volume_deleted(id: &str, reply: &Reply) -> (r: Result<(), String>)
    ensures
        r is Ok <==> reply@.gone(),
        r matches Err(e) ==> e@ == "delete "@ + id@ + ": "@ + reply@.status_text,
{
    deleted("delete ", id, reply)
}

/// Whether a drive is closed.
pub fn drive_closed(id_or_path: &str, reply: &Reply) -> (r: Result<(), String>)
    ensures
        r is Ok <==> reply@.gone(),
        r matches Err(e) ==> e@ == "close drive "@ + id_or_path@ + ": "@ + reply@.status_text,
{
    deleted("close drive ", id_or_path, reply)
}

/// The uuid of an added member, or why there is none.
pub fn member_added(array_id: &str, reply: Reply) -> (r: Result<String, String>)
    ensures
        r is Ok <==> reply@.success() && reply@.body.text_at("member_uuid"@) is Some,
        r matches Ok(u) ==> Some(u@) == reply@.body.text_at("member_uuid"@),
        r matches Err(e) ==> e@ == if reply@.success() {
            "add member: no member_uuid in "@ + json::written(reply@.body)
        } else {
            reply@.refusal(members_path(array_id@))
        },
{
    let path: String = text::owned("/api/v1/arrays/").concat(array_id).concat("/members");
    match reply.accepted(path.as_str()) {
        Ok(v) => match v.text_at("member_uuid") {
            Some(u) => Ok(u.clone()),
            None => Err(
                text::owned("add member: no member_uuid in ").concat(
                    json::write_json(&v).as_str(),
                ),
            ),
        },
        Err(e) => Err(e),
    }
}

/// Whether a member left its array; if not, the engine's status.
pub fn member_removed(member_uuid: &str, reply: &Reply) -> (r: Result<(), String>)
    ensures
        r is Ok <==> reply@.success(),
        r matches Err(e) ==> e@ == "remove member "@ + member_uuid@ + ": "@ + reply@.status_text,
{
    if reply.success() {
        Ok(())
    } else {
        Err(
            text::owned("remove member ").concat(member_uuid).concat(": ").concat(
                reply.status_text.as_str(),
            ),
        )
    }
}

/// The items of a list, or of an object that holds them under `first`, or
/// under `second` where nothing stands under `first`.
pub open spec fn items_in(v: JsonView, first: Seq<char>, second: Seq<char>) -> Seq<JsonView> {
    match v {
        JsonView::List(l) => l,
        _ => {
            let held = match v.at(first) {
                Some(x) => Some(x),
                None => v.at(second),
            };
            match held {
                Some(JsonView::List(l)) => l,
                _ => Seq::empty(),
            }
        },
    }
}

fn items<'a>(v: &'a Json, first: &str, second: &str) -> (r: Option<&'a Vec<Json>>)
    ensures
        r matches Some(l) ==> l.deep_view() == items_in(v@, first@, second@),
        r is None ==> items_in(v@, first@, second@).len() == 0,
{
    match v {
        Json::List(l) => {
            assert(l.deep_view() =~= v@->List_0);
            Some(l)
        },
        _ => {
            let held: Option<&Json> = match v.at(first) {
                Some(x) => Some(x),
                None => v.at(second),
            };
            match held {
                Some(x) => x.list(),
                None => None,
            }
        },
    }
}

/// The open drives in an engine's answer.
pub fn drives_in(v: &Json) -> (r: Vec<&Json>)
    ensures
        r.deep_view() == items_in(v@, "items"@, "drives"@),
{
    references(items(v, "items", "drives"), Ghost(items_in(v@, "items"@, "drives"@)))
}

/// The volumes in an engine's answer.
pub fn volumes_in(v: &Json) -> (r: Vec<&Json>)
    ensures
        r.deep_view() == items_in(v@, "volumes"@, "volumes"@),
{
    references(items(v, "volumes", "volumes"), Ghost(items_in(v@, "volumes"@, "volumes"@)))
}

fn references<'a>(l: Option<&'a Vec<Json>>, Ghost(all): Ghost<Seq<JsonView>>) -> (r: Vec<&'a Json>)
    requires
        l matches Some(l) ==> l.deep_view() == all,
        l is None ==> all.len() == 0,
    ensures
        r.deep_view() == all,
{
    let mut out: Vec<&'a Json> = Vec::new();
    if let Some(l) = l {
        let mut i: usize = 0;
        while i < l.len()
            invariant
                i <= l.len(),
                out.len() == i,
                forall|j: int| 0 <= j < i ==> (#[trigger] out[j])@ == l[j]@,
            decreases l.len() - i,
        {
            out.push(&l[i]);
            i = i + 1;
        }
    }
    assert(out.deep_view() =~= all);
    out
}

/// The volumes that own the slots, as far as each is named.
pub open spec fn slot_volumes(slots: Seq<JsonView>) -> Seq<Seq<char>>
    decreases slots.len(),
{
    if slots.len() == 0 {
        Seq::empty()
    } else {
        let front = slot_volumes(slots.drop_last());
        match slots.last().text_at("volume_id"@) {
            Some(id) => front.push(id),
            None => front,
        }
    }
}

/// The volumes that own slots in an engine's answer with a slab's slot table.
pub fn slab_volume_ids(v: &Json) -> (r: Vec<String>)
    ensures
        r.deep_view() == slot_volumes(items_in(v@, "items"@, "items"@)),
{
    let slots: Vec<&Json> = references(
        items(v, "items", "items"),
        Ghost(items_in(v@, "items"@, "items"@)),
    );
    let ghost all = slots.deep_view();
    let mut r: Vec<String> = Vec::new();
    let mut i: usize = 0;
    assert(r.deep_view() =~= slot_volumes(all.take(0)));
    while i < slots.len()
        invariant
            i <= slots.len(),
            all == slots.deep_view(),
            r.deep_view() == slot_volumes(all.take(i as int)),
        decreases slots.len() - i,
    {
        let ghost was = r.deep_view();
        assert(all.take(i + 1).drop_last() =~= all.take(i as int));
        assert(all.take(i + 1).last() == slots[i as int]@);
        if let Some(id) = slots[i].text_at("volume_id") {
            r.push(id.clone());
            assert(r.deep_view() =~= was.push(id@));
        }
        i = i + 1;
    }
    assert(all.take(i as int) =~= all);
    r
}

/// What came of asking for a drive to be opened.
#[derive(Debug)]
pub enum Opened {
    /// It is open, under this uuid.
    Uuid(String),
    /// It was open already: its uuid is among the open drives.
    Already,
    /// It could not be opened, and why.
    Failed(String),
}

/// Why a drive could not be opened.
pub open spec fn open_refusal(path: Seq<char>, reply: ReplyView) -> Seq<char> {
    "open "@ + path + ": "@ + reply.status_text + ": "@ + said(
        reply.body,
        "error"@,
        "message"@,
    )
}

fn refused_open(path: &str, reply: &Reply) -> (r: String)
    ensures
        r@ == open_refusal(path@, reply@),
{
    text::owned("open ").concat(path).concat(": ").concat(reply.status_text.as_str()).concat(
        ": ",
    ).concat(message(&reply.body, "error", "message").as_str())
}

/// What came of asking for a drive to be opened.
pub fn drive_opened(path: &str, reply: &Reply) -> (r: Opened)
    ensures
        match r {
            Opened::Uuid(u) => reply@.success() && reply@.body.text_at("uuid"@) == Some(u@),
            Opened::Already => reply@.status == 409,
            Opened::Failed(e) => if reply@.success() {
                reply@.body.text_at("uuid"@) is None && e@ == "open "@ + path@ + ": no uuid in "@
                    + json::written(reply@.body)
            } else {
                reply@.status != 409 && e@ == open_refusal(path@, reply@)
            },
        },
{
    if reply.success() {
        match reply.body.text_at("uuid") {
            Some(u) => Opened::Uuid(u.clone()),
            None => Opened::Failed(
                text::owned("open ").concat(path).concat(": no uuid in ").concat(
                    json::write_json(&reply.body).as_str(),
                ),
            ),
        }
    } else if reply.status == 409 {
        Opened::Already
    } else {
        Opened::Failed(refused_open(path, reply))
    }
}

/// The uuid of the first of the drives that is open under this path.
pub open spec fn uuid_by_path(drives: Seq<JsonView>, path: Seq<char>) -> Option<Seq<char>>
    decreases drives.len(),
{
    if drives.len() == 0 {
        None
    } else if drives[0].text_at("path"@) == Some(path) && drives[0].text_at("uuid"@) is Some {
        drives[0].text_at("uuid"@)
    } else {
        uuid_by_path(drives.drop_first(), path)
    }
}

/// The uuid of a drive that was open already, from the answer that lists the
/// open drives; where it is not among them, how the engine refused.
pub fn drive_already_open(path: &str, reply: &Reply, listing: &Json) -> (r: Result<String, String>)
    ensures
        ({
            let found = uuid_by_path(items_in(listing@, "items"@, "drives"@), path@);
            &&& r is Ok <==> found is Some
            &&& r matches Ok(u) ==> Some(u@) == found
            &&& r matches Err(e) ==> e@ == open_refusal(path@, reply@)
        }),
{
    let drives: Vec<&Json> = drives_in(listing);
    let ghost all = items_in(listing@, "items"@, "drives"@);
    let mut i: usize = 0;
    assert(all.skip(0) =~= all);
    while i < drives.len()
        invariant
            i <= drives.len(),
            all == drives.deep_view(),
            all == items_in(listing@, "items"@, "drives"@),
            uuid_by_path(all, path@) == uuid_by_path(all.skip(i as int), path@),
        decreases drives.len() - i,
    {
        let d: &Json = drives[i];
        assert(all.skip(i as int)[0] == d@);
        assert(all.skip(i as int).drop_first() =~= all.skip(i + 1));
        let here: bool = match d.text_at("path") {
            Some(p) => text::same(p.as_str(), path),
            None => false,
        };
        if here {
            if let Some(u) = d.text_at("uuid") {
                return Ok(u.clone());
            }
        }
        i = i + 1;
    }
    Err(refused_open(path, reply))
}

impl DiscoveryView {
    /// The live nodes of the engine's own cluster.
    pub open spec fn cluster_peers(self) -> Seq<DiscoveredNodeView> {
        self.nodes.filter(
            |n: DiscoveredNodeView| self.cluster_id is Some && n.cluster_id == self.cluster_id && !n.stale,
        )
    }
}

impl Discovery {
    /// The live nodes of the engine's own cluster.
    pub fn cluster_peers(&self) -> (r: Vec<&DiscoveredNode>)
        ensures
            r.deep_view() == self@.cluster_peers(),
    {
        let ghost all = self@.nodes;
        let ghost live = |n: DiscoveredNodeView|
            self@.cluster_id is Some && n.cluster_id == self@.cluster_id && !n.stale;
        let mut r: Vec<&DiscoveredNode> = Vec::new();
        let mut i: usize = 0;
        proof {
            reveal(Seq::filter);
        }
        assert(r.deep_view() =~= all.take(0).filter(live));
        while i < self.nodes.len()
            invariant
                i <= self.nodes.len(),
                all == self@.nodes,
                live == (|n: DiscoveredNodeView|
                    self@.cluster_id is Some && n.cluster_id == self@.cluster_id && !n.stale),
                r.deep_view() == all.take(i as int).filter(live),
            decreases self.nodes.len() - i,
        {
            let n: &DiscoveredNode = &self.nodes[i];
            let ghost was = r.deep_view();
            proof {
                assert(all.take(i + 1).drop_last() =~= all.take(i as int));
                assert(all.take(i + 1).last() == n@);
                reveal(Seq::filter);
            }
            if self.cluster_id.is_some() && !n.stale && text::same_option(
                &n.cluster_id,
                &self.cluster_id,
            ) {
                r.push(n);
                assert(r.deep_view() =~= was.push(n@));
            }
            i = i + 1;
        }
        assert(all.take(i as int) =~= all);
        r
    }
}

} // verus!
