//! Peer replication of the control plane's durable intent.
//!
//! Instances (one per site or cluster, "peers") replicate the state that
//! cannot be re-derived: the distributed-volume records and the
//! self-registered node configs. Poll status is deliberately not replicated:
//! every peer watches the engines itself, so observability is local and peers
//! cannot ping-pong overwrites of each other's freshness.
//!
//! Every durable mutation bumps the revision and pushes a full payload to
//! every configured peer; a peer applies a payload only when its revision is
//! newer than its own.

use crate::api;
use crate::config::{Config, ConfigView, NodeConfig, NodeConfigView};
use crate::engine::{Call, CallView, Method};
use crate::events::{EventLog, NoticeView, Severity};
use crate::model;
use crate::model::{
    DistVolume, DistVolumeView, FedState, FedStateView, Node, NodeSource, NodeStatus,
    NodeStatusView, NodeView,
};
use crate::names;
use crate::names::{Dup, NameMap};
use crate::text;
use std::time::SystemTime;
use vstd::prelude::*;
use vstd::string::*;

verus! {

/// What one instance tells its peers.
#[derive(Debug)]
pub struct Payload {
    pub revision: u64,
    pub volumes: NameMap<DistVolume>,
    /// Configs of self-registered nodes (static nodes travel in each peer's own
    /// config file).
    pub registered: Vec<NodeConfig>,
}

/// What a [`Payload`] holds.
#[verifier::ext_equal]
pub struct PayloadView {
    pub revision: u64,
    pub volumes: Map<Seq<char>, DistVolumeView>,
    pub registered: Seq<NodeConfigView>,
}

impl View for Payload {
    type V = PayloadView;

    open spec fn view(&self) -> PayloadView {
        PayloadView {
            revision: self.revision,
            volumes: self.volumes@,
            registered: self.registered.deep_view(),
        }
    }
}

impl DeepView for Payload {
    type V = PayloadView;

    open spec fn deep_view(&self) -> PayloadView {
        self@
    }
}

impl Dup for Payload {
    fn dup(&self) -> (r: Self) {
        Payload {
            revision: self.revision,
            volumes: self.volumes.dup(),
            registered: self.registered.dup(),
        }
    }
}

impl Clone for Payload {
    fn clone(&self) -> (r: Self)
        ensures
            r@ == self@,
    {
        self.dup()
    }
}

/// The configs of those nodes that registered themselves.
pub open spec fn registered_configs(nodes: Seq<NodeView>) -> Seq<NodeConfigView>
    decreases nodes.len(),
{
    if nodes.len() == 0 {
        Seq::empty()
    } else {
        let front = registered_configs(nodes.drop_last());
        if nodes.last().status.source == NodeSource::Registered {
            front.push(nodes.last().config)
        } else {
            front
        }
    }
}

/// What an instance in this state tells its peers.
pub open spec fn payload_of(fed: FedStateView) -> PayloadView {
    PayloadView {
        revision: fed.revision,
        volumes: fed.volumes,
        registered: registered_configs(names::in_order(fed.nodes)),
    }
}

/// What an instance in this state tells its peers.
pub fn build_payload(fed: &FedState) -> (r: Payload)
    ensures
        r@ == payload_of(fed@),
{
    let ghost all = names::in_order(fed@.nodes);
    let n: usize = fed.nodes.len();
    let mut registered: Vec<NodeConfig> = Vec::new();
    let mut i: usize = 0;
    assert(registered.deep_view() =~= registered_configs(all.take(0)));
    while i < n
        invariant
            i <= n,
            n == fed.nodes.keys().len(),
            all == names::in_order(fed@.nodes),
            registered.deep_view() == registered_configs(all.take(i as int)),
        decreases n - i,
    {
        let node: &Node = fed.nodes.value_at(i);
        let ghost was = registered.deep_view();
        assert(all.take(i + 1).drop_last() =~= all.take(i as int));
        assert(all.take(i + 1).last() == node@);
        if node.status.source == NodeSource::Registered {
            registered.push(node.config.dup());
            assert(registered.deep_view() =~= was.push(node@.config));
        }
        i = i + 1;
    }
    assert(all.take(i as int) =~= all);
    Payload { revision: fed.revision, volumes: fed.volumes.dup(), registered }
}

/// The nodes once one registered node that a peer knows is taken in. A node
/// that is known from elsewhere is not overwritten.
pub open spec fn taken_in(known: Map<Seq<char>, NodeView>, config: NodeConfigView) -> Map<
    Seq<char>,
    NodeView,
> {
    if !known.contains_key(config.name) {
        known.insert(
            config.name,
            NodeView { config, status: NodeStatusView::fresh(NodeSource::Registered) },
        )
    } else if known[config.name].status.source == NodeSource::Registered {
        known.insert(config.name, NodeView { config, ..known[config.name] })
    } else {
        known
    }
}

/// The nodes once each registered node that a peer knows is taken in.
pub open spec fn merged(known: Map<Seq<char>, NodeView>, registered: Seq<NodeConfigView>) -> Map<
    Seq<char>,
    NodeView,
>
    decreases registered.len(),
{
    if registered.len() == 0 {
        known
    } else {
        taken_in(merged(known, registered.drop_last()), registered.last())
    }
}

/// The state after a peer's payload: that of the peer where it is newer, and
/// unchanged where it is not.
pub open spec fn applied(fed: FedStateView, payload: PayloadView) -> FedStateView {
    if payload.revision <= fed.revision {
        fed
    } else {
        FedStateView {
            revision: payload.revision,
            nodes: merged(fed.nodes, payload.registered),
            volumes: payload.volumes,
        }
    }
}

/// What is noted when a peer's payload is applied.
pub open spec fn apply_notice(revision: u64) -> NoticeView {
    NoticeView {
        subject: None,
        severity: Severity::Info,
        kind: "replicate"@,
        message: "applied peer state at revision "@ + text::dec(revision as nat),
    }
}

/// Apply a peer's payload if it is newer, and note it. Returns whether it was
/// applied.
pub fn apply(fed: &mut FedState, events: &mut EventLog, payload: Payload) -> (r: bool)
    requires
        old(events)@.next_seq < u64::MAX,
    ensures
        r == (payload@.revision > old(fed)@.revision),
        final(fed)@ == applied(old(fed)@, payload@),
        r ==> exists|time: SystemTime|
            final(events)@ == #[trigger] old(events)@.noted(
                time,
                apply_notice(payload@.revision),
            ),
        r ==> final(events)@.sound(),
        !r ==> final(events)@ == old(events)@,
{
    if payload.revision <= fed.revision {
        return false;
    }
    let ghost known = fed@.nodes;
    let ghost all = payload@.registered;
    let registered: Vec<NodeConfig> = payload.registered;
    let revision: u64 = payload.revision;
    fed.volumes = payload.volumes;
    let mut i: usize = 0;
    assert(all.take(0) =~= Seq::<NodeConfigView>::empty());
    while i < registered.len()
        invariant
            i <= registered.len(),
            all == registered.deep_view(),
            fed@.nodes == merged(known, all.take(i as int)),
            fed@.volumes == payload@.volumes,
        decreases registered.len() - i,
    {
        let nc: &NodeConfig = &registered[i];
        assert(all.take(i + 1).drop_last() =~= all.take(i as int));
        assert(all.take(i + 1).last() == nc@);
        let status: Option<NodeStatus> = match fed.nodes.get(nc.name.as_str()) {
            Some(n) => if n.status.source == NodeSource::Registered {
                Some(n.status.dup())
            } else {
                None
            },
            None => Some(NodeStatus::new(NodeSource::Registered)),
        };
        if let Some(status) = status {
            fed.nodes.insert(nc.name.clone(), Node { config: nc.dup(), status });
        }
        i = i + 1;
    }
    assert(all.take(i as int) =~= all);
    fed.revision = revision;
    let message: String = text::owned("applied peer state at revision ").concat(
        text::decimal(revision).as_str(),
    );
    let ghost was = events@;
    let ghost words = message@;
    let _ = events.push(None, Severity::Info, "replicate", message);
    proof {
        let time = choose|time: SystemTime|
            events@ == #[trigger] was.pushed(time, None, Severity::Info, "replicate"@, words);
        assert(events@ == was.noted(time, apply_notice(revision)));
    }
    true
}

/// A push to one peer: where to, and with which token.
pub open spec fn push_to(config: ConfigView, peer: Seq<char>) -> CallView {
    CallView {
        method: Method::Post,
        url: text::trimmed_end(peer, '/') + "/api/v1/replicate"@,
        token: if config.api.api_token.len() > 0 {
            Some(config.api.api_token)
        } else {
            None
        },
        body: None,
    }
}

/// The pushes that tell every peer, in the order of the configuration. Each
/// carries the payload as its body.
pub fn push_to_peers(config: &Config) -> (r: Vec<Call>)
    ensures
        r.deep_view() == Seq::new(
            config@.replication.peers.len(),
            |i: int| push_to(config@, config@.replication.peers[i]),
        ),
{
    let mut out: Vec<Call> = Vec::new();
    let peers: &Vec<String> = &config.replication.peers;
    let mut i: usize = 0;
    while i < peers.len()
        invariant
            i <= peers.len(),
            peers.deep_view() == config@.replication.peers,
            out.len() == i,
            forall|j: int|
                0 <= j < i ==> (#[trigger] out[j])@ == push_to(
                    config@,
                    config@.replication.peers[j],
                ),
        decreases peers.len() - i,
    {
        assert(config@.replication.peers[i as int] == peers[i as int]@);
        proof {
            reveal_strlit("");
            if config@.api.api_token.len() == 0 {
                assert(config@.api.api_token =~= ""@);
            }
        }
        let token: Option<String> = if text::same(config.api.api_token.as_str(), "") {
            None
        } else {
            Some(config.api.api_token.clone())
        };
        let url: String = text::trim_end(peers[i].as_str(), '/').concat("/api/v1/replicate");
        out.push(Call { method: Method::Post, url, token, body: None });
        i = i + 1;
    }
    assert(out.deep_view() =~= Seq::new(
        config@.replication.peers.len(),
        |k: int| push_to(config@, config@.replication.peers[k]),
    ));
    out
}

/// Applying never takes the revision back, and takes it to the payload's only
/// where that is newer.
pub proof fn revision_never_decreases(fed: FedStateView, payload: PayloadView)
    ensures
        applied(fed, payload).revision >= fed.revision,
        applied(fed, payload).revision >= payload.revision,
        applied(fed, payload).revision == fed.revision || applied(fed, payload).revision
            == payload.revision,
{
}

/// A payload that was applied once, or is older, changes nothing.
pub proof fn apply_is_idempotent(fed: FedStateView, payload: PayloadView)
    ensures
        applied(applied(fed, payload), payload) == applied(fed, payload),
{
}

/// What an instance pushes after it has applied a peer's payload is not newer
/// than the peer: the peer refuses it, and the two do not ping-pong.
pub proof fn push_back_is_refused(mine: FedStateView, peer: FedStateView)
    requires
        peer.revision > mine.revision,
    ensures
        applied(peer, payload_of(applied(mine, payload_of(peer)))) == peer,
{
}

/// An instance that applies a newer peer's payload has the peer's volumes.
pub proof fn volumes_converge(mine: FedStateView, peer: FedStateView)
    requires
        peer.revision > mine.revision,
    ensures
        applied(mine, payload_of(peer)).volumes == peer.volumes,
        applied(mine, payload_of(peer)).revision == peer.revision,
{
}

/// Taking in a peer's registered nodes forgets no node, leaves what is known
/// of a node's status alone, and never overwrites a node that is configured
/// here or was adopted here.
pub proof fn merge_respects_local(
    known: Map<Seq<char>, NodeView>,
    registered: Seq<NodeConfigView>,
    name: Seq<char>,
)
    requires
        known.contains_key(name),
    ensures
        merged(known, registered).contains_key(name),
        merged(known, registered)[name].status == known[name].status,
        known[name].status.source != NodeSource::Registered ==> merged(known, registered)[name]
            == known[name],
    decreases registered.len(),
{
    if registered.len() > 0 {
        merge_respects_local(known, registered.drop_last(), name);
    }
}

/// Taking in a peer's registered nodes leaves every node under its own name.
pub proof fn merge_keyed(known: Map<Seq<char>, NodeView>, registered: Seq<NodeConfigView>)
    requires
        model::keyed(known),
    ensures
        model::keyed(merged(known, registered)),
    decreases registered.len(),
{
    if registered.len() > 0 {
        merge_keyed(known, registered.drop_last());
    }
}

/// Only what a peer cannot know otherwise travels: each config that an instance
/// tells its peers is that of a node that registered itself, and each such node
/// is told. So a node that is configured here or was adopted here stays here.
pub proof fn only_registered_travel(fed: FedStateView)
    requires
        fed.nodes.dom().finite(),
    ensures
        forall|c: NodeConfigView| #[trigger]
            payload_of(fed).registered.contains(c) <==> exists|k: Seq<char>| #[trigger]
                fed.nodes.contains_key(k) && fed.nodes[k].status.source == NodeSource::Registered
                    && fed.nodes[k].config == c,
{
    let nodes = names::in_order(fed.nodes);
    let keys = names::sorted(fed.nodes.dom());
    names::sorted_holds(fed.nodes.dom());
    assert forall|c: NodeConfigView| #[trigger]
        payload_of(fed).registered.contains(c) <==> exists|k: Seq<char>| #[trigger]
            fed.nodes.contains_key(k) && fed.nodes[k].status.source == NodeSource::Registered
                && fed.nodes[k].config == c by {
        registered_holds(nodes, c);
        if payload_of(fed).registered.contains(c) {
            let i = choose|i: int|
                0 <= i < nodes.len() && (#[trigger] nodes[i]).status.source
                    == NodeSource::Registered && nodes[i].config == c;
            assert(keys.to_set().contains(keys[i]));
            assert(fed.nodes.contains_key(keys[i]));
        }
        if exists|k: Seq<char>| #[trigger]
            fed.nodes.contains_key(k) && fed.nodes[k].status.source == NodeSource::Registered
                && fed.nodes[k].config == c {
            let k = choose|k: Seq<char>| #[trigger]
                fed.nodes.contains_key(k) && fed.nodes[k].status.source == NodeSource::Registered
                    && fed.nodes[k].config == c;
            assert(keys.to_set().contains(k));
            let i = keys.index_of(k);
            assert(nodes[i] == fed.nodes[k]);
        }
    }
}

/// The configs of registered nodes are exactly those of the nodes that are.
proof fn registered_holds(nodes: Seq<NodeView>, c: NodeConfigView)
    ensures
        registered_configs(nodes).contains(c) <==> exists|i: int|
            0 <= i < nodes.len() && (#[trigger] nodes[i]).status.source == NodeSource::Registered
                && nodes[i].config == c,
    decreases nodes.len(),
{
    if nodes.len() > 0 {
        let front = registered_configs(nodes.drop_last());
        let all = registered_configs(nodes);
        registered_holds(nodes.drop_last(), c);
        assert(forall|i: int|
            0 <= i < nodes.len() - 1 ==> #[trigger] nodes[i] == nodes.drop_last()[i]);
        if front.contains(c) {
            assert(all[front.index_of(c)] == c);
            let i = choose|i: int|
                0 <= i < nodes.len() - 1 && (#[trigger] nodes.drop_last()[i]).status.source
                    == NodeSource::Registered && nodes.drop_last()[i].config == c;
            assert(nodes[i].config == c);
        }
        if all.contains(c) && !front.contains(c) {
            let p = all.index_of(c);
            if p < front.len() {
                assert(front[p] == c);
            }
            assert(nodes[nodes.len() - 1].config == c);
        }
        if exists|i: int|
            0 <= i < nodes.len() && (#[trigger] nodes[i]).status.source == NodeSource::Registered
                && nodes[i].config == c {
            let i = choose|i: int|
                0 <= i < nodes.len() && (#[trigger] nodes[i]).status.source
                    == NodeSource::Registered && nodes[i].config == c;
            if i < nodes.len() - 1 {
                assert(nodes.drop_last()[i].config == c);
            } else {
                assert(all[front.len() as int] == c);
            }
        }
    }
}

/// What polls find out stays here: two instances that have the same intent, and
/// whose nodes differ only in what was observed of them, tell their peers the
/// same.
pub proof fn observations_stay_here(a: FedStateView, b: FedStateView)
    requires
        a.revision == b.revision,
        a.volumes == b.volumes,
        a.nodes.dom() == b.nodes.dom(),
        a.nodes.dom().finite(),
        forall|k: Seq<char>| #[trigger]
            a.nodes.contains_key(k) ==> a.nodes[k].config == b.nodes[k].config
                && a.nodes[k].status.source == b.nodes[k].status.source,
    ensures
        payload_of(a) == payload_of(b),
{
    let keys = names::sorted(a.nodes.dom());
    let x = names::in_order(a.nodes);
    let y = names::in_order(b.nodes);
    names::sorted_holds(a.nodes.dom());
    assert forall|i: int| 0 <= i < x.len() implies (#[trigger] x[i]).config == y[i].config
        && x[i].status.source == y[i].status.source by {
        assert(keys.to_set().contains(keys[i]));
        assert(a.nodes.contains_key(keys[i]));
    }
    same_registered(x, y);
}

/// A heartbeat that does not bump the revision changes nothing of what the peers
/// are told: every change of a registered node's config is told.
pub proof fn quiet_heartbeat_tells_nothing(
    fed: FedStateView,
    hostname: Seq<char>,
    url: Seq<char>,
    volumes: u64,
    now: SystemTime,
)
    requires
        fed.nodes.dom().finite(),
        !api::changes_intent(fed.nodes, hostname, url),
    ensures
        payload_of(
            FedStateView {
                nodes: fed.nodes.insert(
                    hostname,
                    api::announced_node(fed.nodes, hostname, url, volumes, now),
                ),
                ..fed
            },
        ) == payload_of(fed),
{
    let node = api::announced_node(fed.nodes, hostname, url, volumes, now);
    let after = FedStateView { nodes: fed.nodes.insert(hostname, node), ..fed };
    assert(after.nodes.dom() =~= fed.nodes.dom());
    assert(node.config == fed.nodes[hostname].config);
    observations_stay_here(fed, after);
}

/// An address that a registered node announces anew reaches the peers: a peer
/// that was up to date applies the payload, and has the new address unless the
/// node is configured or adopted there.
pub proof fn announced_address_reaches_peers(
    before: FedStateView,
    after: FedStateView,
    hostname: Seq<char>,
    url: Seq<char>,
    volumes: u64,
    now: SystemTime,
    peer: FedStateView,
)
    requires
        before.nodes.dom().finite(),
        model::keyed(before.nodes),
        before.nodes.contains_key(hostname),
        before.nodes[hostname].status.source == NodeSource::Registered,
        before.nodes[hostname].config.engine_url != url,
        before.revision < u64::MAX,
        after == (FedStateView {
            revision: (before.revision + 1) as u64,
            nodes: before.nodes.insert(
                hostname,
                api::announced_node(before.nodes, hostname, url, volumes, now),
            ),
            ..before
        }),
        peer.revision <= before.revision,
        !peer.nodes.contains_key(hostname) || peer.nodes[hostname].status.source
            == NodeSource::Registered,
    ensures
        applied(peer, payload_of(after)).nodes.contains_key(hostname),
        applied(peer, payload_of(after)).nodes[hostname].config.engine_url == url,
{
    let told = payload_of(after).registered;
    let c = after.nodes[hostname].config;
    assert(after.nodes.dom() =~= before.nodes.dom());
    only_registered_travel(after);
    assert(after.nodes.contains_key(hostname));
    assert(told.contains(c));
    let i = told.index_of(c);
    let nodes = names::in_order(after.nodes);
    let keys = names::sorted(after.nodes.dom());
    names::sorted_holds(after.nodes.dom());
    assert forall|a: int, b: int| 0 <= a < b < nodes.len() implies (#[trigger] nodes[a]).config.name
        != (#[trigger] nodes[b]).config.name by {
        assert(keys.to_set().contains(keys[a]));
        assert(keys.to_set().contains(keys[b]));
        assert(after.nodes.contains_key(keys[a]) && after.nodes.contains_key(keys[b]));
        text::lt_asymmetric(keys[a], keys[b]);
    }
    told_once(nodes);
    merge_takes_configs(peer.nodes, told, i);
}

/// Of nodes with different names each is told of once.
proof fn told_once(nodes: Seq<NodeView>)
    requires
        forall|a: int, b: int|
            0 <= a < b < nodes.len() ==> (#[trigger] nodes[a]).config.name != (
            #[trigger] nodes[b]).config.name,
    ensures
        forall|p: int, q: int|
            0 <= p < q < registered_configs(nodes).len() ==> (#[trigger] registered_configs(
                nodes,
            )[p]).name != (#[trigger] registered_configs(nodes)[q]).name,
    decreases nodes.len(),
{
    if nodes.len() > 0 {
        let rest = nodes.drop_last();
        let front = registered_configs(rest);
        let all = registered_configs(nodes);
        assert(forall|n: int| 0 <= n < rest.len() ==> #[trigger] rest[n] == nodes[n]);
        told_once(rest);
        assert forall|p: int, q: int| 0 <= p < q < all.len() implies (#[trigger] all[p]).name != (
        #[trigger] all[q]).name by {
            assert(all[p] == front[p]);
            if q < front.len() {
                assert(all[q] == front[q]);
            } else {
                assert(front.contains(front[p]));
                registered_holds(rest, front[p]);
                let n = choose|n: int|
                    0 <= n < rest.len() && (#[trigger] rest[n]).status.source
                        == NodeSource::Registered && rest[n].config == front[p];
                assert(nodes[n].config.name != nodes[nodes.len() - 1].config.name);
            }
        }
    }
}

proof fn same_registered(x: Seq<NodeView>, y: Seq<NodeView>)
    requires
        x.len() == y.len(),
        forall|i: int|
            0 <= i < x.len() ==> (#[trigger] x[i]).config == y[i].config && x[i].status.source
                == y[i].status.source,
    ensures
        registered_configs(x) == registered_configs(y),
    decreases x.len(),
{
    if x.len() > 0 {
        assert(forall|i: int|
            0 <= i < x.len() - 1 ==> #[trigger] x.drop_last()[i] == x[i] && y.drop_last()[i]
                == y[i]);
        same_registered(x.drop_last(), y.drop_last());
        assert(x[x.len() - 1].config == y[y.len() - 1].config);
    }
}

/// After a peer's payload, a node that the peer told of has the peer's config
/// here, unless it is configured here or was adopted here.
pub proof fn merge_takes_configs(
    known: Map<Seq<char>, NodeView>,
    registered: Seq<NodeConfigView>,
    i: int,
)
    requires
        0 <= i < registered.len(),
        forall|j: int| i < j < registered.len() ==> (#[trigger] registered[j]).name
            != registered[i].name,
    ensures
        merged(known, registered).contains_key(registered[i].name),
        !known.contains_key(registered[i].name) || known[registered[i].name].status.source
            == NodeSource::Registered ==> merged(known, registered)[registered[i].name].config
            == registered[i],
    decreases registered.len(),
{
    let front = registered.drop_last();
    let name = registered[i].name;
    if i < front.len() {
        assert(front[i] == registered[i]);
        assert(forall|j: int| 0 <= j < front.len() ==> #[trigger] front[j] == registered[j]);
        merge_takes_configs(known, front, i);
        assert(registered[registered.len() - 1].name != name);
    } else {
        merge_source(known, front, name);
    }
}

/// Taking in registered nodes makes no node anything but a registered one.
proof fn merge_source(
    known: Map<Seq<char>, NodeView>,
    registered: Seq<NodeConfigView>,
    name: Seq<char>,
)
    ensures
        merged(known, registered).contains_key(name) && !known.contains_key(name) ==> merged(
            known,
            registered,
        )[name].status.source == NodeSource::Registered,
        known.contains_key(name) ==> merged(known, registered).contains_key(name)
            && merged(known, registered)[name].status == known[name].status,
    decreases registered.len(),
{
    if registered.len() > 0 {
        merge_source(known, registered.drop_last(), name);
    }
}

/// A registered node that a peer knows is known here after its payload.
pub proof fn merge_takes_all(
    known: Map<Seq<char>, NodeView>,
    registered: Seq<NodeConfigView>,
    i: int,
)
    requires
        0 <= i < registered.len(),
    ensures
        merged(known, registered).contains_key(registered[i].name),
    decreases registered.len(),
{
    let front = registered.drop_last();
    if i < front.len() {
        merge_takes_all(known, front, i);
        assert(front[i] == registered[i]);
    }
}

} // verus!
