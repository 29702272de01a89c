//! Polls, inventories, adoption, what peers tell each other, and the event log.

use crate::api;
use crate::config::{ConfigView, LocalConfigView, NodeConfigView};
use crate::engine::{CapacityView, DiscoveredNodeView, DiscoveryView, Method};
use crate::events::{EventLogView, EventView, NoticeView, Severity};
use crate::inventory::NodeInventoryView;
use crate::laws::lists;
use crate::laws::lists::kept;
use crate::model;
use crate::model::{FedStateView, NodeSource, NodeStatusView, NodeView};
use crate::names;
use crate::registry;
use crate::replicate;
use crate::replicate::PayloadView;
use crate::text;
use std::time::SystemTime;
use vstd::prelude::*;

verus! {

/// A poll that is answered makes the node healthy, with the capacity, the free
/// bytes and the topology that were answered, and nothing else of it changes.
pub proof fn answered_poll_is_recorded(
    s: NodeStatusView,
    c: CapacityView,
    threshold: u32,
    now: SystemTime,
)
    ensures
        ({
            let t = s.polled(Ok(c), threshold, now);
            &&& t.healthy
            &&& t.last_ok == Some(now)
            &&& t.consecutive_failures == 0
            &&& t.total_bytes == c.total_bytes
            &&& t.free_bytes == c.free_bytes
            &&& t.engine_topology == c.topology
            &&& t.volumes == s.volumes
            &&& t.source == s.source
        }),
{
}

/// A poll that fails counts as one failure more, and makes the node unhealthy
/// exactly where the failures reach the threshold. What was last known of the
/// node stays, and a node that is unhealthy stays so.
pub proof fn failed_poll_is_counted(
    s: NodeStatusView,
    why: Seq<char>,
    threshold: u32,
    now: SystemTime,
)
    requires
        s.consecutive_failures < u32::MAX,
    ensures
        ({
            let t = s.polled(Err(why), threshold, now);
            &&& t.consecutive_failures == s.consecutive_failures + 1
            &&& t.healthy <==> s.healthy && t.consecutive_failures < threshold
            &&& t.last_ok == s.last_ok
            &&& t.total_bytes == s.total_bytes
            &&& t.free_bytes == s.free_bytes
            &&& t.engine_topology == s.engine_topology
            &&& t.volumes == s.volumes
            &&& t.source == s.source
        }),
{
}

/// A poll is noted exactly where it changes whether the node is healthy, once
/// and about that node: for information where it is healthy now, as an error
/// where it no longer is.
pub proof fn change_of_health_is_noted(
    s: NodeStatusView,
    name: Seq<char>,
    url: Seq<char>,
    r: Result<CapacityView, Seq<char>>,
    threshold: u32,
    now: SystemTime,
)
    requires
        s.consecutive_failures < u32::MAX,
    ensures
        ({
            let t = s.polled(r, threshold, now);
            let notices = registry::poll_notices(s, name, url, r, threshold);
            &&& t.healthy == s.healthy ==> notices.len() == 0
            &&& t.healthy != s.healthy ==> notices.len() == 1 && notices[0].subject == Some(name)
                && notices[0].kind == "node"@ && match r {
                Ok(_) => t.healthy && notices[0].severity == Severity::Info && notices[0].message
                    == name + ": engine reachable ("@ + url + ")"@,
                Err(e) => !t.healthy && notices[0].severity == Severity::Error
                    && notices[0].message == name + ": engine unreachable after "@ + text::dec(
                    t.consecutive_failures as nat,
                ) + " polls: "@ + e,
            }
        }),
{
}

/// A volume owns slots on exactly the slabs whose slots name it.
pub proof fn slot_owners_are_turned_round(
    slots: Seq<(Seq<char>, Seq<Seq<char>>)>,
    volume: Seq<char>,
    slab: Seq<char>,
)
    ensures
        ({
            let owners = registry::slot_map(slots);
            &&& owners.contains_key(volume) && owners[volume].contains(slab) <==> exists|i: int|
                0 <= i < slots.len() && (#[trigger] slots[i]).0 == slab && slots[i].1.contains(
                    volume,
                )
            &&& owners.contains_key(volume) ==> exists|s: Seq<char>| #[trigger]
                owners[volume].contains(s)
        }),
{
    let owners = registry::slot_map(slots);
    if exists|i: int|
        0 <= i < slots.len() && (#[trigger] slots[i]).0 == slab && slots[i].1.contains(volume) {
        let i = choose|i: int|
            0 <= i < slots.len() && (#[trigger] slots[i]).0 == slab && slots[i].1.contains(volume);
        assert(slots[i].1.contains(volume));
    }
    if owners.contains_key(volume) {
        let i = choose|i: int| 0 <= i < slots.len() && (#[trigger] slots[i]).1.contains(volume);
        assert(owners[volume].contains(slots[i].0));
    }
}

/// Reading a node's inventory touches that node alone. What was read replaces
/// what was there and gives the node's volume count. A read that fails keeps
/// the slabs, the volumes and their time, says why, and leaves the count.
pub proof fn read_inventory_is_taken_in(
    all: Map<Seq<char>, NodeInventoryView>,
    nodes: Map<Seq<char>, NodeView>,
    name: Seq<char>,
    inv: NodeInventoryView,
    why: Seq<char>,
    other: Seq<char>,
)
    requires
        inv.volumes.len() <= u64::MAX,
    ensures
        ({
            let good = registry::refreshed(all, name, Ok(inv));
            let bad = registry::refreshed(all, name, Err(why));
            &&& good.contains_key(name) && good[name] == inv
            &&& bad.contains_key(name) && bad[name].error == Some(why)
            &&& all.contains_key(name) ==> bad[name].slabs == all[name].slabs && bad[name].volumes
                == all[name].volumes && bad[name].fetched_at == all[name].fetched_at
            &&& !all.contains_key(name) ==> bad[name].slabs.len() == 0 && bad[name].volumes.len()
                == 0 && bad[name].fetched_at is None
            &&& other != name ==> {
                &&& good.contains_key(other) == all.contains_key(other)
                &&& good[other] == all[other]
                &&& bad.contains_key(other) == all.contains_key(other)
                &&& bad[other] == all[other]
            }
        }),
        ({
            let good = registry::counted(nodes, name, Ok(inv));
            &&& registry::counted(nodes, name, Err(why)) == nodes
            &&& good.dom() == nodes.dom()
            &&& nodes.contains_key(name) ==> good[name].config == nodes[name].config
                && good[name].status == (NodeStatusView {
                volumes: inv.volumes.len() as u64,
                ..nodes[name].status
            })
            &&& other != name ==> good[other] == nodes[other]
        }),
{
    assert(registry::counted(nodes, name, Ok(inv)).dom() =~= nodes.dom());
}

/// What this machine is called: the kernel's word, and only without it the
/// environment's, either without white space round it, and nothing where that
/// leaves nothing.
pub proof fn kernel_names_the_machine(file: Seq<char>, variable: Option<Seq<char>>)
    ensures
        registry::host_name(Some(file), variable) == registry::host_name(Some(file), None),
        registry::host_name(Some(file), variable) is None <==> text::trimmed_text(file).len() == 0,
        registry::host_name(Some(file), variable) matches Some(h) ==> h == text::trimmed_text(file),
        registry::host_name(None, Some(file)) == registry::host_name(Some(file), None),
        registry::host_name(None, None) is None,
{
}

/// What the local engine is adopted as: under the configured name, else the one
/// it has itself, else the machine's, else `local`; at the configured address,
/// with the token and the configured tier, and without labels.
pub proof fn local_engine_is_adopted_first(
    local: LocalConfigView,
    token: Option<Seq<char>>,
    discovery: Option<DiscoveryView>,
    host: Option<Seq<char>>,
)
    ensures
        ({
            let w = registry::wanted_nodes(local, token, discovery, host);
            let own = discovery is Some && (discovery->0).local_node.len() > 0;
            &&& w.len() > 0
            &&& w[0].engine_url == text::trimmed_end(local.engine_url, '/')
            &&& w[0].api_token == token
            &&& w[0].tier == local.tier
            &&& w[0].labels == Map::<Seq<char>, Seq<char>>::empty()
            &&& local.name matches Some(n) ==> w[0].name == n
            &&& local.name is None && own ==> w[0].name == (discovery->0).local_node
            &&& local.name is None && !own && host is Some ==> w[0].name == host->0
            &&& local.name is None && !own && host is None ==> w[0].name == "local"@
        }),
{
}

/// Which peers are adopted besides: where they are wanted and the engine
/// answers, exactly the nodes of its own cluster that are not stale, in its
/// order, each under its own name at its own address, with the same token and
/// tier as the local engine.
pub proof fn live_cluster_peers_are_adopted(
    local: LocalConfigView,
    token: Option<Seq<char>>,
    discovery: Option<DiscoveryView>,
    host: Option<Seq<char>>,
)
    ensures
        registry::wanted_nodes(local, token, discovery, host).drop_first() == if local.cluster_peers
            && discovery is Some && (discovery->0).cluster_id is Some {
            let d = discovery->0;
            kept(
                d.nodes,
                |n: DiscoveredNodeView| n.cluster_id == d.cluster_id && !n.stale,
                |n: DiscoveredNodeView|
                    NodeConfigView {
                        name: n.node_name,
                        engine_url: api::engine_url(n.mgmt_addr),
                        api_token: token,
                        labels: Map::empty(),
                        tier: local.tier,
                    },
            )
        } else {
            Seq::empty()
        },
{
    let rest = registry::wanted_nodes(local, token, discovery, host).drop_first();
    if local.cluster_peers && discovery is Some {
        let d = discovery->0;
        let live = |n: DiscoveredNodeView|
            d.cluster_id is Some && n.cluster_id == d.cluster_id && !n.stale;
        let p = |n: DiscoveredNodeView| n.cluster_id == d.cluster_id && !n.stale;
        assert(rest =~= registry::peer_configs(local, token, d.cluster_peers()));
        if d.cluster_id is Some {
            same_filter(d.nodes, live, p);
            let f = |n: DiscoveredNodeView|
                NodeConfigView {
                    name: n.node_name,
                    engine_url: api::engine_url(n.mgmt_addr),
                    api_token: token,
                    labels: Map::empty(),
                    tier: local.tier,
                };
            assert(rest =~= kept(d.nodes, p, f));
        } else {
            none_live(d.nodes, live);
            assert(rest =~= Seq::<NodeConfigView>::empty());
        }
    } else {
        assert(rest =~= Seq::<NodeConfigView>::empty());
    }
}

proof fn same_filter<A>(s: Seq<A>, p: spec_fn(A) -> bool, q: spec_fn(A) -> bool)
    requires
        forall|a: A| #[trigger] p(a) == q(a),
    ensures
        s.filter(p) == s.filter(q),
    decreases s.len(),
{
    reveal(Seq::filter);
    if s.len() > 0 {
        same_filter(s.drop_last(), p, q);
        assert(p(s.last()) == q(s.last()));
    }
}

proof fn none_live<A>(s: Seq<A>, p: spec_fn(A) -> bool)
    requires
        forall|a: A| !#[trigger] p(a),
    ensures
        s.filter(p).len() == 0,
    decreases s.len(),
{
    reveal(Seq::filter);
    if s.len() > 0 {
        none_live(s.drop_last(), p);
        assert(!p(s.last()));
    }
}

/// Whether a node from elsewhere has the name or the address.
pub open spec fn taken(nodes: Map<Seq<char>, NodeView>, c: NodeConfigView) -> bool {
    exists|k: Seq<char>| #[trigger]
        nodes.contains_key(k) && nodes[k].status.source != NodeSource::Local && (
        nodes[k].config.name == c.name || nodes[k].config.engine_url == c.engine_url)
}

/// The node as adoption leaves it: `i` is the place of the last of the wanted
/// nodes of that name that no node from elsewhere stands in the way of, or -1.
pub open spec fn adopted_node(
    nodes: Map<Seq<char>, NodeView>,
    wanted: Seq<NodeConfigView>,
    judge: bool,
    name: Seq<char>,
    i: int,
) -> Option<NodeView> {
    if i >= 0 {
        Some(
            NodeView {
                config: wanted[i],
                status: if nodes.contains_key(name) {
                    nodes[name].status
                } else {
                    NodeStatusView::fresh(NodeSource::Local)
                },
            },
        )
    } else if !nodes.contains_key(name) {
        None
    } else if nodes[name].status.source != NodeSource::Local || (exists|j: int|
        0 <= j < wanted.len() && (#[trigger] wanted[j]).name == name) || (!judge
        && nodes[name].config.engine_url != wanted[0].engine_url) {
        Some(nodes[name])
    } else {
        None
    }
}

/// Whether the wanted node at `i` is the last of its name that no node from
/// elsewhere stands in the way of; for -1, whether there is none.
pub open spec fn last_free(
    nodes: Map<Seq<char>, NodeView>,
    wanted: Seq<NodeConfigView>,
    name: Seq<char>,
    i: int,
) -> bool {
    &&& -1 <= i < wanted.len()
    &&& i >= 0 ==> wanted[i].name == name && !taken(nodes, wanted[i])
    &&& forall|j: int|
        i < j < wanted.len() ==> (#[trigger] wanted[j]).name != name || taken(nodes, wanted[j])
}

proof fn find_last_free(
    nodes: Map<Seq<char>, NodeView>,
    wanted: Seq<NodeConfigView>,
    name: Seq<char>,
) -> (i: int)
    ensures
        last_free(nodes, wanted, name, i),
    decreases wanted.len(),
{
    if wanted.len() == 0 {
        -1
    } else if wanted.last().name == name && !taken(nodes, wanted.last()) {
        wanted.len() - 1
    } else {
        let front = wanted.drop_last();
        let i = find_last_free(nodes, front, name);
        assert forall|j: int| i < j < wanted.len() implies (#[trigger] wanted[j]).name != name
            || taken(nodes, wanted[j]) by {
            if j < front.len() {
                assert(front[j].name != name || taken(nodes, front[j]));
            }
        }
        i
    }
}

proof fn adopted_so_far(
    nodes: Map<Seq<char>, NodeView>,
    wanted: Seq<NodeConfigView>,
    name: Seq<char>,
    i: int,
)
    requires
        model::keyed(nodes),
        last_free(nodes, wanted, name, i),
    ensures
        ({
            let then = registry::all_adopted(nodes, wanted);
            if i >= 0 {
                then.contains_key(name) && then[name] == (NodeView {
                    config: wanted[i],
                    status: if nodes.contains_key(name) {
                        nodes[name].status
                    } else {
                        NodeStatusView::fresh(NodeSource::Local)
                    },
                })
            } else {
                then.contains_key(name) == nodes.contains_key(name) && then[name] == nodes[name]
            }
        }),
    decreases wanted.len(),
{
    if wanted.len() > 0 {
        let front = wanted.drop_last();
        let last = wanted.last();
        foreign_stay(nodes, front, last);
        if i == wanted.len() - 1 {
            let h = find_last_free(nodes, front, name);
            adopted_so_far(nodes, front, name, h);
        } else {
            assert(wanted[wanted.len() - 1] == last);
            assert(last.name != name || taken(nodes, last));
            assert forall|j: int| i < j < front.len() implies (#[trigger] front[j]).name != name
                || taken(nodes, front[j]) by {
                assert(wanted[j].name != name || taken(nodes, wanted[j]));
            }
            adopted_so_far(nodes, front, name, i);
        }
    }
}

proof fn foreign_stay(
    nodes: Map<Seq<char>, NodeView>,
    wanted: Seq<NodeConfigView>,
    c: NodeConfigView,
)
    requires
        model::keyed(nodes),
    ensures
        registry::covered(registry::all_adopted(nodes, wanted), c) == taken(nodes, c),
{
    let then = registry::all_adopted(nodes, wanted);
    foreign_same(nodes, wanted);
    if taken(nodes, c) {
        let k = choose|k: Seq<char>| #[trigger]
            nodes.contains_key(k) && nodes[k].status.source != NodeSource::Local && (
            nodes[k].config.name == c.name || nodes[k].config.engine_url == c.engine_url);
        assert(then.contains_key(k) && then[k] == nodes[k]);
    }
    if registry::covered(then, c) {
        let k = choose|k: Seq<char>| #[trigger]
            then.contains_key(k) && then[k].status.source != NodeSource::Local && (
            then[k].config.name == c.name || then[k].config.engine_url == c.engine_url);
        assert(nodes.contains_key(k) && nodes[k] == then[k]);
    }
}

proof fn foreign_same(nodes: Map<Seq<char>, NodeView>, wanted: Seq<NodeConfigView>)
    requires
        model::keyed(nodes),
    ensures
        ({
            let then = registry::all_adopted(nodes, wanted);
            &&& model::keyed(then)
            &&& forall|k: Seq<char>| #[trigger]
                nodes.contains_key(k) && nodes[k].status.source != NodeSource::Local
                    ==> then.contains_key(k) && then[k] == nodes[k]
            &&& forall|k: Seq<char>| #[trigger]
                then.contains_key(k) && then[k].status.source != NodeSource::Local
                    ==> nodes.contains_key(k) && nodes[k] == then[k]
        }),
    decreases wanted.len(),
{
    if wanted.len() > 0 {
        foreign_same(nodes, wanted.drop_last());
        let before = registry::all_adopted(nodes, wanted.drop_last());
        let then = registry::all_adopted(nodes, wanted);
        let c = wanted.last();
        if !registry::covered(before, c) && before.contains_key(c.name) {
            assert(before[c.name].config.name == c.name);
            assert(before[c.name].status.source == NodeSource::Local);
        }
        assert forall|k: Seq<char>| #[trigger]
            nodes.contains_key(k) && nodes[k].status.source
                != NodeSource::Local implies then.contains_key(k) && then[k] == nodes[k] by {
            assert(before.contains_key(k) && before[k] == nodes[k]);
        }
        assert forall|k: Seq<char>| #[trigger]
            then.contains_key(k) && then[k].status.source
                != NodeSource::Local implies nodes.contains_key(k) && nodes[k] == then[k] by {
            if k == c.name && !registry::covered(before, c) {
            } else {
                assert(before.contains_key(k) && before[k] == then[k]);
            }
        }
    }
}

/// What adoption leaves of each node. A wanted node is adopted as it is wanted,
/// keeping what was known of its status, unless a node from elsewhere has its
/// name or its address. A node that was adopted before is forgotten where it is
/// no longer wanted, unless it is a peer and peers are not judged. Every other
/// node stays as it is, and none comes besides.
pub proof fn adoption_node_by_node(
    nodes: Map<Seq<char>, NodeView>,
    wanted: Seq<NodeConfigView>,
    judge: bool,
    name: Seq<char>,
    i: int,
)
    requires
        model::keyed(nodes),
        wanted.len() > 0,
        last_free(nodes, wanted, name, i),
    ensures
        ({
            let then = registry::adoption(nodes, wanted, judge);
            match adopted_node(nodes, wanted, judge, name, i) {
                Some(n) => then.contains_key(name) && then[name] == n,
                None => !then.contains_key(name),
            }
        }),
{
    adopted_so_far(nodes, wanted, name, i);
    if i >= 0 {
        assert(wanted[i].name == name);
    }
}

/// What is noted of an adoption: every node that is new is noted as adopted,
/// every one that is forgotten as such, and nothing else is.
pub proof fn adoption_is_noted(
    nodes: Map<Seq<char>, NodeView>,
    wanted: Seq<NodeConfigView>,
    judge: bool,
)
    requires
        nodes.dom().finite(),
        model::keyed(nodes),
        wanted.len() > 0,
        forall|a: int, b: int|
            0 <= a < b < wanted.len() ==> (#[trigger] wanted[a]).name != (
            #[trigger] wanted[b]).name,
    ensures
        ({
            let fresh = kept(
                wanted,
                |c: NodeConfigView| !taken(nodes, c) && !nodes.contains_key(c.name),
                |c: NodeConfigView|
                    NoticeView {
                        subject: None,
                        severity: Severity::Info,
                        kind: "adopt"@,
                        message: "adopted "@ + c.name + " ("@ + c.engine_url + ")"@,
                    },
            );
            let gone = names::sorted(nodes.dom()).filter(
                |n: Seq<char>| !registry::adoption(nodes, wanted, judge).contains_key(n),
            );
            registry::adoption_notices(nodes, wanted, judge) == fresh + gone.map_values(
                |n: Seq<char>|
                    NoticeView {
                        subject: Some(n),
                        severity: Severity::Warning,
                        kind: "adopt"@,
                        message: n + ": no longer this engine or its cluster peer — forgotten"@,
                    },
            )
        }),
{
    let then = registry::all_adopted(nodes, wanted);
    let after = registry::adoption(nodes, wanted, judge);
    let stay = |n: Seq<char>| !registry::stays(n, then[n], wanted, judge);
    let gone = |n: Seq<char>| !after.contains_key(n);
    new_ones_are_noted(nodes, wanted);
    adoption_keeps_finite(nodes, wanted);
    names::sorted_holds(nodes.dom());
    names::sorted_holds(then.dom());
    let old_keys = names::sorted(nodes.dom());
    let keys = names::sorted(then.dom());
    let a = keys.filter(stay);
    let b = old_keys.filter(gone);
    filter_ascends(keys, stay);
    filter_ascends(old_keys, gone);
    assert forall|n: Seq<char>| a.contains(n) == b.contains(n) by {
        filtered(keys, stay, n);
        filtered(old_keys, gone, n);
        assert(keys.to_set().contains(n) == then.contains_key(n));
        assert(old_keys.to_set().contains(n) == nodes.contains_key(n));
        let i = find_last_free(nodes, wanted, n);
        adopted_so_far(nodes, wanted, n, i);
        if i >= 0 {
            assert(wanted[i].name == n);
        }
    }
    assert(a.to_set() =~= b.to_set());
    names::ascending_unique(a, b);
    let f = |n: Seq<char>|
        NoticeView {
            subject: Some(n),
            severity: Severity::Warning,
            kind: "adopt"@,
            message: n + ": no longer this engine or its cluster peer — forgotten"@,
        };
    assert(Seq::new(a.len(), |i: int| registry::drop_notice(a[i])) =~= b.map_values(f));
}

proof fn filtered<A>(s: Seq<A>, p: spec_fn(A) -> bool, a: A)
    ensures
        s.filter(p).contains(a) <==> s.contains(a) && p(a),
{
    let f = |x: A| x;
    assert(kept(s, p, f) =~= s.filter(p));
    if s.filter(p).contains(a) {
        let k = s.filter(p).index_of(a);
        let i = lists::kept_comes_from(s, p, f, k);
        assert(s[i] == a);
    }
    if s.contains(a) && p(a) {
        lists::kept_holds(s, p, f, s.index_of(a));
    }
}

proof fn filter_ascends(s: Seq<Seq<char>>, p: spec_fn(Seq<char>) -> bool)
    requires
        names::ascending(s),
    ensures
        names::ascending(s.filter(p)),
    decreases s.len(),
{
    reveal(Seq::filter);
    if s.len() > 0 {
        let front = s.drop_last();
        assert(names::ascending(front)) by {
            assert forall|i: int, j: int| 0 <= i < j < front.len() implies text::lt(
                #[trigger] front[i],
                #[trigger] front[j],
            ) by {
                assert(text::lt(s[i], s[j]));
            }
        }
        filter_ascends(front, p);
        let before = front.filter(p);
        let all = s.filter(p);
        assert forall|i: int, j: int| 0 <= i < j < all.len() implies text::lt(
            #[trigger] all[i],
            #[trigger] all[j],
        ) by {
            if j < before.len() {
                assert(text::lt(before[i], before[j]));
            } else {
                filtered(front, p, before[i]);
                assert(before.contains(before[i]));
                let h = front.index_of(before[i]);
                assert(text::lt(s[h], s[s.len() - 1]));
            }
        }
    }
}

proof fn adoption_keeps_finite(nodes: Map<Seq<char>, NodeView>, wanted: Seq<NodeConfigView>)
    requires
        nodes.dom().finite(),
    ensures
        registry::all_adopted(nodes, wanted).dom().finite(),
    decreases wanted.len(),
{
    if wanted.len() > 0 {
        adoption_keeps_finite(nodes, wanted.drop_last());
    }
}

proof fn new_ones_are_noted(nodes: Map<Seq<char>, NodeView>, wanted: Seq<NodeConfigView>)
    requires
        model::keyed(nodes),
        forall|a: int, b: int|
            0 <= a < b < wanted.len() ==> (#[trigger] wanted[a]).name != (
            #[trigger] wanted[b]).name,
    ensures
        registry::adopt_notices(nodes, wanted) == kept(
            wanted,
            |c: NodeConfigView| !taken(nodes, c) && !nodes.contains_key(c.name),
            |c: NodeConfigView|
                NoticeView {
                    subject: None,
                    severity: Severity::Info,
                    kind: "adopt"@,
                    message: "adopted "@ + c.name + " ("@ + c.engine_url + ")"@,
                },
        ),
    decreases wanted.len(),
{
    let p = |c: NodeConfigView| !taken(nodes, c) && !nodes.contains_key(c.name);
    let f = |c: NodeConfigView|
        NoticeView {
            subject: None,
            severity: Severity::Info,
            kind: "adopt"@,
            message: "adopted "@ + c.name + " ("@ + c.engine_url + ")"@,
        };
    if wanted.len() == 0 {
        lists::kept_of_none(wanted, p, f);
    } else {
        let front = wanted.drop_last();
        let last = wanted.last();
        assert forall|a: int, b: int| 0 <= a < b < front.len() implies (#[trigger] front[a]).name
            != (#[trigger] front[b]).name by {
            assert(wanted[a].name != wanted[b].name);
        }
        assert forall|j: int| 0 <= j < front.len() implies (#[trigger] front[j]).name
            != last.name by {
            assert(wanted[j].name != wanted[wanted.len() - 1].name);
        }
        new_ones_are_noted(nodes, front);
        lists::kept_of_more(wanted, p, f);
        foreign_stay(nodes, front, last);
        adopted_so_far(nodes, front, last.name, -1);
    }
}

/// What an instance tells its peers: its revision, all of its volumes, and the
/// configuration of every node that registered itself, in the order of their
/// names.
pub proof fn peers_are_told_what_registered(fed: FedStateView)
    ensures
        ({
            let p = replicate::payload_of(fed);
            &&& p.revision == fed.revision
            &&& p.volumes == fed.volumes
            &&& p.registered == kept(
                names::in_order(fed.nodes),
                |n: NodeView| n.status.source == NodeSource::Registered,
                |n: NodeView| n.config,
            )
        }),
{
    registered_are_kept(names::in_order(fed.nodes));
}

proof fn registered_are_kept(nodes: Seq<NodeView>)
    ensures
        replicate::registered_configs(nodes) == kept(
            nodes,
            |n: NodeView| n.status.source == NodeSource::Registered,
            |n: NodeView| n.config,
        ),
    decreases nodes.len(),
{
    let p = |n: NodeView| n.status.source == NodeSource::Registered;
    let f = |n: NodeView| n.config;
    if nodes.len() == 0 {
        lists::kept_of_none(nodes, p, f);
    } else {
        registered_are_kept(nodes.drop_last());
        lists::kept_of_more(nodes, p, f);
    }
}

/// What a peer's payload leaves of each node, by the place `i` of the last of
/// that name among the nodes told of, or -1. A node that is new here starts
/// with nothing known of it; one that registered itself here takes the new
/// configuration and keeps its status; any other stays as it is, and none
/// comes besides.
pub proof fn payload_is_taken_in_node_by_node(
    fed: FedStateView,
    payload: PayloadView,
    name: Seq<char>,
    i: int,
)
    requires
        -1 <= i < payload.registered.len(),
        i >= 0 ==> payload.registered[i].name == name,
        forall|j: int|
            i < j < payload.registered.len() ==> (#[trigger] payload.registered[j]).name != name,
    ensures
        payload.revision <= fed.revision ==> replicate::applied(fed, payload) == fed,
        payload.revision > fed.revision ==> {
            let then = replicate::applied(fed, payload);
            &&& then.revision == payload.revision
            &&& then.volumes == payload.volumes
            &&& then.nodes.contains_key(name) <==> i >= 0 || fed.nodes.contains_key(name)
            &&& i >= 0 && !fed.nodes.contains_key(name) ==> then.nodes[name] == (NodeView {
                config: payload.registered[i],
                status: NodeStatusView::fresh(NodeSource::Registered),
            })
            &&& i >= 0 && fed.nodes.contains_key(name) && fed.nodes[name].status.source
                == NodeSource::Registered ==> then.nodes[name] == (NodeView {
                config: payload.registered[i],
                status: fed.nodes[name].status,
            })
            &&& fed.nodes.contains_key(name) && (i < 0 || fed.nodes[name].status.source
                != NodeSource::Registered) ==> then.nodes[name] == fed.nodes[name]
        },
{
    merged_node_by_node(fed.nodes, payload.registered, name, i);
}

proof fn merged_node_by_node(
    known: Map<Seq<char>, NodeView>,
    told: Seq<NodeConfigView>,
    name: Seq<char>,
    i: int,
)
    requires
        -1 <= i < told.len(),
        i >= 0 ==> told[i].name == name,
        forall|j: int| i < j < told.len() ==> (#[trigger] told[j]).name != name,
    ensures
        ({
            let then = replicate::merged(known, told);
            &&& then.contains_key(name) <==> i >= 0 || known.contains_key(name)
            &&& i >= 0 && !known.contains_key(name) ==> then[name] == (NodeView {
                config: told[i],
                status: NodeStatusView::fresh(NodeSource::Registered),
            })
            &&& i >= 0 && known.contains_key(name) && known[name].status.source
                == NodeSource::Registered ==> then[name] == (NodeView {
                config: told[i],
                status: known[name].status,
            })
            &&& known.contains_key(name) && (i < 0 || known[name].status.source
                != NodeSource::Registered) ==> then[name] == known[name]
        }),
    decreases told.len(),
{
    if told.len() > 0 {
        let front = told.drop_last();
        assert(forall|j: int| 0 <= j < front.len() ==> #[trigger] front[j] == told[j]);
        if i == told.len() - 1 {
            let h = last_of(front, name);
            merged_node_by_node(known, front, name, h);
        } else {
            assert(told[told.len() - 1].name != name);
            assert forall|j: int| i < j < front.len() implies (#[trigger] front[j]).name
                != name by {
                assert(told[j].name != name);
            }
            merged_node_by_node(known, front, name, i);
        }
    }
}

proof fn last_of(told: Seq<NodeConfigView>, name: Seq<char>) -> (i: int)
    ensures
        -1 <= i < told.len(),
        i >= 0 ==> told[i].name == name,
        forall|j: int| i < j < told.len() ==> (#[trigger] told[j]).name != name,
    decreases told.len(),
{
    if told.len() == 0 {
        -1
    } else if told.last().name == name {
        told.len() - 1
    } else {
        let front = told.drop_last();
        let i = last_of(front, name);
        assert forall|j: int| i < j < told.len() implies (#[trigger] told[j]).name != name by {
            if j < front.len() {
                assert(front[j].name != name);
            }
        }
        i
    }
}

/// A peer is told at its own address, with the token where there is one.
pub proof fn peer_is_told_at_its_address(config: ConfigView, peer: Seq<char>)
    ensures
        ({
            let c = replicate::push_to(config, peer);
            &&& c.method == Method::Post
            &&& c.url == text::trimmed_end(peer, '/') + "/api/v1/replicate"@
            &&& c.token is None <==> config.api.api_token.len() == 0
            &&& c.token matches Some(t) ==> t == config.api.api_token
        }),
{
}

/// The log holds as many of the latest events as it has room for: one more with
/// each push until it is full, and as many as before from then on.
pub proof fn log_fills_and_stays_full(
    log: EventLogView,
    time: SystemTime,
    n: NoticeView,
)
    requires
        log.sound(),
        log.next_seq < u64::MAX,
        log.cap > 0,
    ensures
        ({
            let then = log.noted(time, n);
            &&& then.cap == log.cap
            &&& then.next_seq == log.next_seq + 1
            &&& then.ring.len() == if log.ring.len() < log.cap {
                log.ring.len() + 1
            } else {
                log.ring.len()
            }
            &&& then.ring.last() == (EventView {
                seq: log.next_seq,
                time,
                subject: n.subject,
                severity: n.severity,
                kind: n.kind,
                message: n.message,
            })
        }),
{
}

/// Notices are kept in the order in which they come, each with its own words
/// and its own number, as long as there is room for them.
pub proof fn notices_are_kept_in_order(
    log: EventLogView,
    notices: Seq<NoticeView>,
    times: Seq<SystemTime>,
    i: int,
)
    requires
        log.sound(),
        notices.len() == times.len(),
        notices.len() <= log.cap,
        log.next_seq + notices.len() <= u64::MAX,
        0 <= i < notices.len(),
    ensures
        ({
            let then = log.recorded(notices, times);
            let at = then.ring.len() - notices.len() + i;
            &&& then.sound()
            &&& then.next_seq == log.next_seq + notices.len()
            &&& 0 <= at < then.ring.len()
            &&& then.ring[at] == (EventView {
                seq: (log.next_seq + i) as u64,
                time: times[i],
                subject: notices[i].subject,
                severity: notices[i].severity,
                kind: notices[i].kind,
                message: notices[i].message,
            })
        }),
{
    recorded_holds(log, notices, times);
}

proof fn recorded_holds(log: EventLogView, notices: Seq<NoticeView>, times: Seq<SystemTime>)
    requires
        log.sound(),
        notices.len() == times.len(),
        notices.len() <= log.cap,
        log.next_seq + notices.len() <= u64::MAX,
    ensures
        ({
            let then = log.recorded(notices, times);
            &&& then.sound()
            &&& then.cap == log.cap
            &&& then.next_seq == log.next_seq + notices.len()
            &&& notices.len() <= then.ring.len()
            &&& forall|i: int|
                0 <= i < notices.len() ==> then.ring[then.ring.len() - notices.len() + i] == (
                EventView {
                    seq: (log.next_seq + i) as u64,
                    time: times[i],
                    subject: (#[trigger] notices[i]).subject,
                    severity: notices[i].severity,
                    kind: notices[i].kind,
                    message: notices[i].message,
                })
        }),
    decreases notices.len(),
{
    if notices.len() > 0 {
        let ns = notices.drop_last();
        let ts = times.drop_last();
        recorded_holds(log, ns, ts);
        let before = log.recorded(ns, ts);
        let then = log.recorded(notices, times);
        let n = notices.last();
        before.push_keeps_latest(times.last(), n.subject, n.severity, n.kind, n.message);
        assert forall|i: int| 0 <= i < notices.len() implies then.ring[then.ring.len()
            - notices.len() + i] == (EventView {
            seq: (log.next_seq + i) as u64,
            time: times[i],
            subject: (#[trigger] notices[i]).subject,
            severity: notices[i].severity,
            kind: notices[i].kind,
            message: notices[i].message,
        }) by {
            if i < ns.len() {
                assert(ns[i] == notices[i] && ts[i] == times[i]);
                let at = then.ring.len() - notices.len() + i;
                let was = before.ring.len() - ns.len() + i;
                assert(then.ring[at] == before.ring[was]);
            }
        }
    }
}

/// Nothing is known of a node that was just added but where it comes from.
pub proof fn new_node_is_not_heard_of_yet(source: NodeSource)
    ensures
        ({
            let s = NodeStatusView::fresh(source);
            &&& !s.healthy
            &&& s.last_ok is None
            &&& s.consecutive_failures == 0
            &&& s.total_bytes == 0
            &&& s.free_bytes == 0
            &&& s.volumes == 0
            &&& s.engine_topology == Map::<Seq<char>, Seq<char>>::empty()
            &&& s.source == source
        }),
{
}

/// A payload that is applied is noted with its revision.
pub proof fn applied_payload_is_noted(revision: u64)
    ensures
        ({
            let n = replicate::apply_notice(revision);
            &&& n.subject is None
            &&& n.severity == Severity::Info
            &&& n.kind == "replicate"@
            &&& n.message == "applied peer state at revision "@ + text::dec(revision as nat)
        }),
{
}

} // verus!
