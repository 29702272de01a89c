//! The registry's rules: adopting the local engine and its cluster peers,
//! tracking every node's health, and keeping each node's inventory.

use crate::api;
use crate::config::{LocalConfig, LocalConfigView, NodeConfig, NodeConfigView, PollConfig};
use crate::engine::{
    Capacity, CapacityView, DiscoveredNode, DiscoveredNodeView, Discovery, DiscoveryView,
};
use crate::events;
use crate::events::{Notice, NoticeView, Severity};
use crate::inventory;
use crate::inventory::{
    EngineVolume, NodeInventory, NodeInventoryView, PlacedVolume, Slab,
};
use crate::model;
use crate::model::{
    FedState, FedStateView, Node, NodeSource, NodeStatus, NodeStatusView, NodeView,
};
use crate::names;
use crate::names::{Dup, NameMap, NameSet};
use crate::text;
use std::time::SystemTime;
use vstd::prelude::*;
use vstd::string::*;

verus! {

/// How many seconds to wait between two polls.
pub fn poll_wait(poll: &PollConfig) -> (secs: u64)
    ensures
        secs == if poll@.interval_secs == 0 {
            1
        } else {
            poll@.interval_secs
        },
{
    if poll.interval_secs == 0 {
        1
    } else {
        poll.interval_secs
    }
}

/// What a poll asks of the nodes: name, engine URL and token of each.
pub fn poll_targets(fed: &FedState) -> (r: Vec<(String, String, Option<String>)>)
    ensures
        r.deep_view() == Seq::new(
            names::in_order(fed@.nodes).len(),
            |i: int|
                {
                    let c = names::in_order(fed@.nodes)[i].config;
                    (c.name, c.engine_url, c.api_token)
                },
        ),
{
    let ghost all = names::in_order(fed@.nodes);
    let n: usize = fed.nodes.len();
    let mut r: Vec<(String, String, Option<String>)> = Vec::new();
    let mut i: usize = 0;
    while i < n
        invariant
            i <= n,
            n == fed.nodes.keys().len(),
            all == names::in_order(fed@.nodes),
            r.len() == i,
            forall|j: int|
                0 <= j < i ==> (#[trigger] r[j]).deep_view() == (
                    all[j].config.name,
                    all[j].config.engine_url,
                    all[j].config.api_token,
                ),
        decreases n - i,
    {
        let c: &NodeConfig = &fed.nodes.value_at(i).config;
        r.push((c.name.clone(), c.engine_url.clone(), c.api_token.dup()));
        i = i + 1;
    }
    assert(r.deep_view() =~= Seq::new(
        all.len(),
        |k: int|
            {
                let c = names::in_order(fed@.nodes)[k].config;
                (c.name, c.engine_url, c.api_token)
            },
    ));
    r
}

/// What a poll of one engine gave: its capacity, or why there is none.
pub open spec fn outcome(result: Result<Capacity, String>) -> Result<CapacityView, Seq<char>> {
    match result {
        Ok(c) => Ok(c@),
        Err(e) => Err(e@),
    }
}

impl NodeStatusView {
    /// The status after a poll at `now`. One success makes a node healthy; the
    /// failures in a row make it unhealthy once there are `threshold` of them.
    pub open spec fn polled(
        self,
        result: Result<CapacityView, Seq<char>>,
        threshold: u32,
        now: SystemTime,
    ) -> Self {
        match result {
            Ok(cap) => NodeStatusView {
                healthy: true,
                consecutive_failures: 0,
                last_ok: Some(now),
                total_bytes: cap.total_bytes,
                free_bytes: cap.free_bytes,
                engine_topology: cap.topology,
                ..self
            },
            Err(_) => NodeStatusView {
                healthy: self.healthy && self.consecutive_failures + 1 < threshold,
                consecutive_failures: (self.consecutive_failures + 1) as u32,
                ..self
            },
        }
    }

    /// The status after this many failed polls in a row.
    pub open spec fn failed(self, times: nat, threshold: u32, now: SystemTime) -> Self
        decreases times,
    {
        if times == 0 {
            self
        } else {
            self.failed((times - 1) as nat, threshold, now).polled(
                Err(Seq::empty()),
                threshold,
                now,
            )
        }
    }
}

/// A node that was just reached stays healthy through fewer failed polls in a
/// row than the threshold, and is unhealthy from the one on that reaches it;
/// what was last known of it is kept.
pub proof fn threshold_decides(
    status: NodeStatusView,
    times: nat,
    threshold: u32,
    now: SystemTime,
)
    requires
        status.healthy,
        status.consecutive_failures == 0,
        times <= u32::MAX,
    ensures
        status.failed(times, threshold, now) == (NodeStatusView {
            healthy: times == 0 || times < threshold,
            consecutive_failures: times as u32,
            ..status
        }),
    decreases times,
{
    if times > 0 {
        threshold_decides(status, (times - 1) as nat, threshold, now);
    }
}

/// One successful poll makes a node healthy, whatever it was before.
pub proof fn success_heals(
    status: NodeStatusView,
    capacity: CapacityView,
    threshold: u32,
    now: SystemTime,
)
    ensures
        status.polled(Ok(capacity), threshold, now).healthy,
        status.polled(Ok(capacity), threshold, now).consecutive_failures == 0,
        status.polled(Ok(capacity), threshold, now).source == status.source,
{
}

/// What is noted of a poll: that a node can be reached again, or no longer.
pub open spec fn poll_notices(
    status: NodeStatusView,
    name: Seq<char>,
    url: Seq<char>,
    result: Result<CapacityView, Seq<char>>,
    threshold: u32,
) -> Seq<NoticeView> {
    match result {
        Ok(_) => if status.healthy {
            Seq::empty()
        } else {
            seq![
                NoticeView {
                    subject: Some(name),
                    severity: Severity::Info,
                    kind: "node"@,
                    message: name + ": engine reachable ("@ + url + ")"@,
                },
            ]
        },
        Err(e) => if status.healthy && status.consecutive_failures + 1 >= threshold {
            seq![
                NoticeView {
                    subject: Some(name),
                    severity: Severity::Error,
                    kind: "node"@,
                    message: name + ": engine unreachable after "@ + text::dec(
                        (status.consecutive_failures + 1) as nat,
                    ) + " polls: "@ + e,
                },
            ]
        } else {
            Seq::empty()
        },
    }
}

/// What came of recording a poll.
#[derive(Debug)]
pub struct Polled {
    /// Whether the node's inventory is to be read now.
    pub refresh: bool,
    pub notices: Vec<Notice>,
}

/// Records what a poll of one node gave at `now`. A node that is no longer
/// known is passed over. An unhealthy node's inventory would say the opposite
/// of the truth: it is dropped.
pub fn record_poll(
    fed: &mut FedState,
    inventory: &mut NameMap<NodeInventory>,
    fail_threshold: u32,
    name: &str,
    url: &str,
    result: Result<Capacity, String>,
    now: SystemTime,
) -> (r: Polled)
    requires
        result is Err && old(fed)@.nodes.contains_key(name@) ==> old(
            fed,
        )@.nodes[name@].status.consecutive_failures < u32::MAX,
    ensures
        !old(fed)@.nodes.contains_key(name@) ==> final(fed)@ == old(fed)@ && final(inventory)@
            == old(inventory)@ && !r.refresh && r.notices.deep_view() == Seq::<NoticeView>::empty(),
        final(fed)@.revision == old(fed)@.revision,
        final(fed)@.volumes == old(fed)@.volumes,
        old(fed)@.nodes.contains_key(name@) ==> ({
            let node = old(fed)@.nodes[name@];
            let status = node.status.polled(outcome(result), fail_threshold, now);
            &&& final(fed)@ == (FedStateView {
                nodes: old(fed)@.nodes.insert(name@, NodeView { status, ..node }),
                ..old(fed)@
            })
            &&& final(inventory)@ == if status.healthy {
                old(inventory)@
            } else {
                old(inventory)@.remove(name@)
            }
            &&& r.refresh == result is Ok
            &&& r.notices.deep_view() == poll_notices(
                node.status,
                name@,
                url@,
                outcome(result),
                fail_threshold,
            )
        }),
{
    let mut notices: Vec<Notice> = Vec::new();
    assert(notices.deep_view() =~= Seq::<NoticeView>::empty());
    let mut node: Node = match fed.nodes.get(name) {
        Some(n) => n.dup(),
        None => {
            return Polled { refresh: false, notices };
        },
    };
    let was_healthy: bool = node.status.healthy;
    let mut refresh: bool = false;
    match result {
        Ok(cap) => {
            node.status.healthy = true;
            node.status.consecutive_failures = 0;
            node.status.last_ok = Some(now);
            node.status.total_bytes = cap.total_bytes;
            node.status.free_bytes = cap.free_bytes;
            node.status.engine_topology = cap.topology;
            if !was_healthy {
                let message: String = text::owned(name).concat(": engine reachable (").concat(
                    url,
                ).concat(")");
                notices.push(events::notice(name, Severity::Info, "node", message));
            }
            refresh = true;
        },
        Err(e) => {
            let failures: u32 = node.status.consecutive_failures + 1;
            node.status.consecutive_failures = failures;
            if was_healthy && failures >= fail_threshold {
                node.status.healthy = false;
                let message: String = text::owned(name).concat(
                    ": engine unreachable after ",
                ).concat(text::decimal(failures as u64).as_str()).concat(" polls: ").concat(
                    e.as_str(),
                );
                notices.push(events::notice(name, Severity::Error, "node", message));
            }
            if !node.status.healthy {
                let _ = inventory.remove(name);
            }
        },
    }
    assert(notices.deep_view() =~= poll_notices(
        old(fed)@.nodes[name@].status,
        name@,
        url@,
        outcome(result),
        fail_threshold,
    ));
    fed.nodes.insert(text::owned(name), node);
    Polled { refresh, notices }
}

/// The volumes that own slots on each slab, turned round: the slabs that each
/// volume owns slots on.
pub open spec fn slot_map(slots: Seq<(Seq<char>, Seq<Seq<char>>)>) -> Map<
    Seq<char>,
    Set<Seq<char>>,
> {
    Map::new(
        |v: Seq<char>| exists|i: int| 0 <= i < slots.len() && (#[trigger] slots[i]).1.contains(v),
        |v: Seq<char>|
            Set::new(
                |s: Seq<char>|
                    exists|i: int|
                        0 <= i < slots.len() && (#[trigger] slots[i]).0 == s && slots[i].1.contains(
                            v,
                        ),
            ),
    )
}

/// Adds that a volume owns a slot on a slab.
fn add_owner(owners: &mut NameMap<NameSet>, volume: &String, slab: &String)
    ensures
        final(owners)@ == old(owners)@.insert(
            volume@,
            if old(owners)@.contains_key(volume@) {
                old(owners)@[volume@].insert(slab@)
            } else {
                Set::<Seq<char>>::empty().insert(slab@)
            },
        ),
{
    let mut on: NameSet = match owners.get(volume.as_str()) {
        Some(s) => s.dup(),
        None => NameSet::new(),
    };
    on.insert(slab.clone());
    owners.insert(volume.clone(), on);
}

/// The slabs that each volume owns slots on, from the volumes that own slots
/// on each slab.
pub fn slot_owners(slots: &Vec<(String, Vec<String>)>) -> (r: NameMap<NameSet>)
    ensures
        r@ == slot_map(slots.deep_view()),
{
    let ghost all = slots.deep_view();
    let mut owners: NameMap<NameSet> = NameMap::new();
    let mut i: usize = 0;
    assert(owners@ =~= slot_map(all.take(0)));
    while i < slots.len()
        invariant
            i <= slots.len(),
            all == slots.deep_view(),
            owners@ == slot_map(all.take(i as int)),
        decreases slots.len() - i,
    {
        let slab: &String = &slots[i].0;
        let volumes: &Vec<String> = &slots[i].1;
        let ghost mine = volumes.deep_view();
        let ghost here = |k: int| all.take(i as int).push((slab@, mine.take(k)));
        let mut j: usize = 0;
        assert(all[i as int] == (slab@, mine));
        assert(owners@ =~= slot_map(here(0))) by {
            slot_map_step(all.take(i as int), slab@, Seq::empty());
            assert(mine.take(0) =~= Seq::<Seq<char>>::empty());
        }
        while j < volumes.len()
            invariant
                j <= volumes.len(),
                i < slots.len(),
                mine == volumes.deep_view(),
                all == slots.deep_view(),
                owners@ == slot_map(all.take(i as int).push((slab@, mine.take(j as int)))),
            decreases volumes.len() - j,
        {
            add_owner(&mut owners, &volumes[j], slab);
            proof {
                slot_map_grows(all.take(i as int), slab@, mine.take(j as int), mine[j as int]);
                assert(mine.take(j + 1) =~= mine.take(j as int).push(mine[j as int]));
            }
            j = j + 1;
        }
        proof {
            assert(mine.take(j as int) =~= mine);
            assert(all.take(i + 1) =~= all.take(i as int).push((slab@, mine)));
        }
        i = i + 1;
    }
    assert(all.take(i as int) =~= all);
    owners
}

/// A slab on which nobody owns a slot changes nothing.
proof fn slot_map_step(
    slots: Seq<(Seq<char>, Seq<Seq<char>>)>,
    slab: Seq<char>,
    none: Seq<Seq<char>>,
)
    requires
        none.len() == 0,
    ensures
        slot_map(slots.push((slab, none))) == slot_map(slots),
{
    let more = slots.push((slab, none));
    assert(forall|i: int| 0 <= i < slots.len() ==> #[trigger] more[i] == slots[i]);
    assert forall|v: Seq<char>| slot_map(more).contains_key(v) == slot_map(slots).contains_key(
        v,
    ) by {
        if slot_map(slots).contains_key(v) {
            let i = choose|i: int| 0 <= i < slots.len() && (#[trigger] slots[i]).1.contains(v);
            assert(more[i].1.contains(v));
        }
        if slot_map(more).contains_key(v) {
            let i = choose|i: int| 0 <= i < more.len() && (#[trigger] more[i]).1.contains(v);
            assert(slots[i].1.contains(v));
        }
    }
    assert forall|v: Seq<char>| slot_map(more).contains_key(v) implies slot_map(more)[v]
        == slot_map(slots)[v] by {
        assert forall|s: Seq<char>| slot_map(more)[v].contains(s) == slot_map(slots)[v].contains(
            s,
        ) by {
            if slot_map(slots)[v].contains(s) {
                let i = choose|i: int|
                    0 <= i < slots.len() && (#[trigger] slots[i]).0 == s && slots[i].1.contains(v);
                assert(more[i].0 == s && more[i].1.contains(v));
            }
            if slot_map(more)[v].contains(s) {
                let i = choose|i: int|
                    0 <= i < more.len() && (#[trigger] more[i]).0 == s && more[i].1.contains(v);
                assert(slots[i].0 == s && slots[i].1.contains(v));
            }
        }
        assert(slot_map(more)[v] =~= slot_map(slots)[v]);
    }
    assert(slot_map(more) =~= slot_map(slots));
}

/// One more volume that owns a slot on the last slab.
proof fn slot_map_grows(
    slots: Seq<(Seq<char>, Seq<Seq<char>>)>,
    slab: Seq<char>,
    volumes: Seq<Seq<char>>,
    v: Seq<char>,
)
    ensures
        ({
            let old = slot_map(slots.push((slab, volumes)));
            slot_map(slots.push((slab, volumes.push(v)))) == old.insert(
                v,
                if old.contains_key(v) {
                    old[v].insert(slab)
                } else {
                    Set::<Seq<char>>::empty().insert(slab)
                },
            )
        }),
{
    let a = slots.push((slab, volumes));
    let b = slots.push((slab, volumes.push(v)));
    let old = slot_map(a);
    let new = slot_map(b);
    let want = old.insert(
        v,
        if old.contains_key(v) {
            old[v].insert(slab)
        } else {
            Set::<Seq<char>>::empty().insert(slab)
        },
    );
    let n = slots.len() as int;
    assert(forall|i: int| 0 <= i < n ==> #[trigger] a[i] == b[i]);
    assert(a[n] == (slab, volumes));
    assert(b[n] == (slab, volumes.push(v)));
    assert(volumes.push(v).contains(v)) by {
        assert(volumes.push(v)[volumes.len() as int] == v);
    }
    assert forall|x: Seq<char>| x != v implies volumes.push(v).contains(x) == volumes.contains(
        x,
    ) by {
        if volumes.contains(x) {
            let p = volumes.index_of(x);
            assert(volumes.push(v)[p] == x);
        }
        if volumes.push(v).contains(x) {
            let p = volumes.push(v).index_of(x);
            assert(volumes[p] == x);
        }
    }
    assert forall|x: Seq<char>| volumes.contains(x) implies volumes.push(v).contains(x) by {
        let p = volumes.index_of(x);
        assert(volumes.push(v)[p] == x);
    }
    assert forall|x: Seq<char>| new.contains_key(x) == want.contains_key(x) by {
        if old.contains_key(x) {
            let i = choose|i: int| 0 <= i < a.len() && (#[trigger] a[i]).1.contains(x);
            assert(b[i].1.contains(x));
        }
        if x == v {
            assert(b[n].1.contains(v));
        }
        if new.contains_key(x) && x != v {
            let i = choose|i: int| 0 <= i < b.len() && (#[trigger] b[i]).1.contains(x);
            assert(a[i].1.contains(x));
        }
    }
    assert forall|x: Seq<char>| new.contains_key(x) implies new[x] == want[x] by {
        assert forall|s: Seq<char>| new[x].contains(s) == want[x].contains(s) by {
            if old.contains_key(x) && old[x].contains(s) {
                let i = choose|i: int|
                    0 <= i < a.len() && (#[trigger] a[i]).0 == s && a[i].1.contains(x);
                assert(b[i].0 == s && b[i].1.contains(x));
            }
            if x == v && s == slab {
                assert(b[n].0 == s && b[n].1.contains(x));
            }
            if new[x].contains(s) {
                let i = choose|i: int|
                    0 <= i < b.len() && (#[trigger] b[i]).0 == s && b[i].1.contains(x);
                if i < n || x != v {
                    assert(a[i].0 == s && a[i].1.contains(x));
                    assert(old.contains_key(x));
                    assert(old[x].contains(s));
                }
            }
        }
        assert(new[x] =~= want[x]);
    }
    assert(new =~= want);
}

/// A node's inventory, from what its engine was read to hold at `now`: its
/// slabs, its volumes, and the volumes that own slots on each slab.
pub fn read_inventory(
    slabs: Vec<Slab>,
    volumes: Vec<EngineVolume>,
    slots: &Vec<(String, Vec<String>)>,
    now: SystemTime,
) -> (r: NodeInventory)
    ensures
        r@ == (NodeInventoryView {
            slabs: slabs.deep_view(),
            volumes: inventory::placed(
                slabs.deep_view(),
                volumes.deep_view(),
                slot_map(slots.deep_view()),
            ),
            fetched_at: Some(now),
            error: None,
        }),
{
    let owners: NameMap<NameSet> = slot_owners(slots);
    let placed: Vec<PlacedVolume> = inventory::place(slabs.as_slice(), volumes, &owners);
    NodeInventory { slabs, volumes: placed, fetched_at: Some(now), error: None }
}

/// What reading a node's inventory gave: the inventory, or why there is none.
pub open spec fn reading(result: Result<NodeInventory, String>) -> Result<
    NodeInventoryView,
    Seq<char>,
> {
    match result {
        Ok(i) => Ok(i@),
        Err(e) => Err(e@),
    }
}

/// The inventories after one node was read. A failed read keeps the previous
/// inventory and records why.
pub open spec fn refreshed(
    all: Map<Seq<char>, NodeInventoryView>,
    name: Seq<char>,
    result: Result<NodeInventoryView, Seq<char>>,
) -> Map<Seq<char>, NodeInventoryView> {
    match result {
        Ok(inv) => all.insert(name, inv),
        Err(e) => all.insert(
            name,
            NodeInventoryView {
                error: Some(e),
                ..if all.contains_key(name) {
                    all[name]
                } else {
                    NodeInventoryView::empty()
                }
            },
        ),
    }
}

/// The nodes after one node's inventory was read: it shows how many volumes
/// the node has.
pub open spec fn counted(
    nodes: Map<Seq<char>, NodeView>,
    name: Seq<char>,
    result: Result<NodeInventoryView, Seq<char>>,
) -> Map<Seq<char>, NodeView> {
    match result {
        Ok(inv) => if nodes.contains_key(name) {
            nodes.insert(
                name,
                NodeView {
                    status: NodeStatusView {
                        volumes: inv.volumes.len() as u64,
                        ..nodes[name].status
                    },
                    ..nodes[name]
                },
            )
        } else {
            nodes
        },
        Err(_) => nodes,
    }
}

/// Takes in what reading a node's inventory gave.
pub fn refresh_inventory(
    fed: &mut FedState,
    inventory: &mut NameMap<NodeInventory>,
    name: &str,
    result: Result<NodeInventory, String>,
)
    ensures
        final(fed)@.revision == old(fed)@.revision,
        final(fed)@.volumes == old(fed)@.volumes,
        final(inventory)@ == refreshed(old(inventory)@, name@, reading(result)),
        final(fed)@ == (FedStateView {
            nodes: counted(old(fed)@.nodes, name@, reading(result)),
            ..old(fed)@
        }),
{
    match result {
        Ok(inv) => {
            let count: u64 = inv.volumes.len() as u64;
            inventory.insert(text::owned(name), inv);
            let node: Option<Node> = match fed.nodes.get(name) {
                Some(n) => Some(n.dup()),
                None => None,
            };
            if let Some(mut n) = node {
                n.status.volumes = count;
                fed.nodes.insert(text::owned(name), n);
            }
        },
        Err(e) => {
            let mut inv: NodeInventory = match inventory.get(name) {
                Some(i) => i.dup(),
                None => NodeInventory::default(),
            };
            inv.error = Some(e);
            inventory.insert(text::owned(name), inv);
        },
    }
}

/// Forgets the inventory of nodes that are no longer known.
pub fn forget_unknown(inventory: &mut NameMap<NodeInventory>, fed: &FedState)
    ensures
        final(inventory)@ == old(inventory)@.restrict(fed@.nodes.dom()),
{
    let known: NameSet = fed.nodes.key_set();
    inventory.retain(&known);
}

/// This machine's name, from the kernel's word for it or else from the
/// environment's, without the white space round it.
pub open spec fn host_name(file: Option<Seq<char>>, variable: Option<Seq<char>>) -> Option<
    Seq<char>,
> {
    match file {
        Some(s) => nonblank(text::trimmed_text(s)),
        None => match variable {
            Some(s) => nonblank(text::trimmed_text(s)),
            None => None,
        },
    }
}

/// The text, unless it is empty.
pub open spec fn nonblank(s: Seq<char>) -> Option<Seq<char>> {
    if s.len() > 0 {
        Some(s)
    } else {
        None
    }
}

/// The text, unless it is empty.
pub fn unless_empty(s: &str) -> (r: Option<String>)
    ensures
        r.deep_view() == nonblank(s@),
{
    proof {
        reveal_strlit("");
        if s@.len() == 0 {
            assert(s@ =~= ""@);
        }
    }
    if text::same(s, "") {
        None
    } else {
        Some(text::owned(s))
    }
}

/// This machine's name, from the kernel's word for it or else from the
/// environment's.
pub fn hostname(file: Option<String>, variable: Option<String>) -> (r: Option<String>)
    ensures
        r.deep_view() == host_name(file.deep_view(), variable.deep_view()),
{
    let raw: Option<String> = match file {
        Some(s) => Some(s),
        None => variable,
    };
    match raw {
        Some(s) => unless_empty(text::trim(s.as_str())),
        None => None,
    }
}

/// The name to adopt the local engine under: the configured one, the engine's
/// own, the machine's, or `local`.
pub open spec fn local_name(
    local: LocalConfigView,
    discovery: Option<DiscoveryView>,
    host: Option<Seq<char>>,
) -> Seq<char> {
    if local.name is Some {
        local.name->0
    } else if discovery is Some && (discovery->0).local_node.len() > 0 {
        (discovery->0).local_node
    } else if host is Some {
        host->0
    } else {
        "local"@
    }
}

/// A node as adoption configures it.
pub open spec fn adopted_config(
    local: LocalConfigView,
    token: Option<Seq<char>>,
    name: Seq<char>,
    url: Seq<char>,
) -> NodeConfigView {
    NodeConfigView {
        name,
        engine_url: url,
        api_token: token,
        labels: Map::empty(),
        tier: local.tier,
    }
}

/// The nodes to adopt: the local engine first, then the live peers of its
/// cluster, where they are wanted and known.
pub open spec fn wanted_nodes(
    local: LocalConfigView,
    token: Option<Seq<char>>,
    discovery: Option<DiscoveryView>,
    host: Option<Seq<char>>,
) -> Seq<NodeConfigView> {
    let first = seq![
        adopted_config(
            local,
            token,
            local_name(local, discovery, host),
            text::trimmed_end(local.engine_url, '/'),
        ),
    ];
    if local.cluster_peers && discovery is Some {
        first + peer_configs(local, token, (discovery->0).cluster_peers())
    } else {
        first
    }
}

/// The peers, each as adoption configures it.
pub open spec fn peer_configs(
    local: LocalConfigView,
    token: Option<Seq<char>>,
    peers: Seq<DiscoveredNodeView>,
) -> Seq<NodeConfigView> {
    Seq::new(
        peers.len(),
        |i: int|
            adopted_config(
                local,
                token,
                peers[i].node_name,
                api::engine_url(peers[i].mgmt_addr),
            ),
    )
}

fn adopt_as(local: &LocalConfig, token: &Option<String>, name: String, url: String) -> (r:
    NodeConfig)
    ensures
        r@ == adopted_config(local@, token.deep_view(), name@, url@),
{
    NodeConfig {
        name,
        engine_url: url,
        api_token: token.dup(),
        labels: NameMap::new(),
        tier: local.tier.dup(),
    }
}

/// The nodes to adopt.
pub fn wanted(
    local: &LocalConfig,
    token: &Option<String>,
    discovery: &Option<Discovery>,
    host: &Option<String>,
) -> (r: Vec<NodeConfig>)
    ensures
        r.deep_view() == wanted_nodes(
            local@,
            token.deep_view(),
            discovery.deep_view(),
            host.deep_view(),
        ),
{
    let own: Option<String> = match discovery {
        Some(d) => unless_empty(d.local_node.as_str()),
        None => None,
    };
    let name: String = match &local.name {
        Some(n) => n.clone(),
        None => match own {
            Some(n) => n,
            None => match host {
                Some(h) => h.clone(),
                None => text::owned("local"),
            },
        },
    };
    let mut out: Vec<NodeConfig> = Vec::new();
    out.push(adopt_as(local, token, name, text::trim_end(local.engine_url.as_str(), '/')));
    let ghost first = seq![
        adopted_config(
            local@,
            token.deep_view(),
            local_name(local@, discovery.deep_view(), host.deep_view()),
            text::trimmed_end(local@.engine_url, '/'),
        ),
    ];
    assert(out.deep_view() =~= first);
    if local.cluster_peers {
        if let Some(d) = discovery {
            let peers: Vec<&DiscoveredNode> = d.cluster_peers();
            let ghost all = peer_configs(local@, token.deep_view(), d@.cluster_peers());
            let mut i: usize = 0;
            assert(first + all.take(0) =~= first);
            while i < peers.len()
                invariant
                    i <= peers.len(),
                    peers.deep_view() == d@.cluster_peers(),
                    all == peer_configs(local@, token.deep_view(), d@.cluster_peers()),
                    out.deep_view() == first + all.take(i as int),
                decreases peers.len() - i,
            {
                let p: &DiscoveredNode = peers[i];
                let ghost was = out.deep_view();
                assert(d@.cluster_peers()[i as int] == p@);
                out.push(
                    adopt_as(
                        local,
                        token,
                        p.node_name.clone(),
                        api::engine_url_from(p.mgmt_addr.as_str()),
                    ),
                );
                assert(out.deep_view() =~= was.push(all[i as int]));
                assert(first + all.take(i + 1) =~= (first + all.take(i as int)).push(
                    all[i as int],
                ));
                i = i + 1;
            }
            assert(all.take(i as int) =~= all);
        }
    }
    out
}

/// Whether another source already covers this engine or this name.
pub open spec fn covered(nodes: Map<Seq<char>, NodeView>, config: NodeConfigView) -> bool {
    exists|k: Seq<char>| #[trigger]
        nodes.contains_key(k) && nodes[k].status.source != NodeSource::Local && (
        nodes[k].config.name == config.name || nodes[k].config.engine_url == config.engine_url)
}

/// The nodes once one more is adopted, unless another source covers it.
pub open spec fn with_adopted(nodes: Map<Seq<char>, NodeView>, config: NodeConfigView) -> Map<
    Seq<char>,
    NodeView,
> {
    if covered(nodes, config) {
        nodes
    } else {
        nodes.insert(
            config.name,
            NodeView {
                config,
                status: if nodes.contains_key(config.name) {
                    nodes[config.name].status
                } else {
                    NodeStatusView::fresh(NodeSource::Local)
                },
            },
        )
    }
}

/// The nodes once each of the wanted ones is adopted, in turn.
pub open spec fn all_adopted(
    nodes: Map<Seq<char>, NodeView>,
    wanted: Seq<NodeConfigView>,
) -> Map<Seq<char>, NodeView>
    decreases wanted.len(),
{
    if wanted.len() == 0 {
        nodes
    } else {
        with_adopted(all_adopted(nodes, wanted.drop_last()), wanted.last())
    }
}

/// What is noted when nodes are adopted: each that was not known before.
pub open spec fn adopt_notices(
    nodes: Map<Seq<char>, NodeView>,
    wanted: Seq<NodeConfigView>,
) -> Seq<NoticeView>
    decreases wanted.len(),
{
    if wanted.len() == 0 {
        Seq::empty()
    } else {
        let front = adopt_notices(nodes, wanted.drop_last());
        let before = all_adopted(nodes, wanted.drop_last());
        let config = wanted.last();
        if !covered(before, config) && !before.contains_key(config.name) {
            front.push(
                NoticeView {
                    subject: None,
                    severity: Severity::Info,
                    kind: "adopt"@,
                    message: "adopted "@ + config.name + " ("@ + config.engine_url + ")"@,
                },
            )
        } else {
            front
        }
    }
}

/// Whether a node stays known: it is not an adopted one, or it is still wanted,
/// or it is a peer and peers are not judged this time.
pub open spec fn stays(
    name: Seq<char>,
    node: NodeView,
    wanted: Seq<NodeConfigView>,
    judge_peers: bool,
) -> bool {
    ||| node.status.source != NodeSource::Local
    ||| exists|i: int| 0 <= i < wanted.len() && #[trigger] wanted[i].name == name
    ||| !judge_peers && node.config.engine_url != wanted[0].engine_url
}

/// The names, ascending, of the nodes that do not stay.
pub open spec fn leavers(
    nodes: Map<Seq<char>, NodeView>,
    wanted: Seq<NodeConfigView>,
    judge_peers: bool,
) -> Seq<Seq<char>> {
    names::sorted(nodes.dom()).filter(
        |n: Seq<char>| !stays(n, nodes[n], wanted, judge_peers),
    )
}

/// What is noted of a node that is forgotten.
pub open spec fn drop_notice(name: Seq<char>) -> NoticeView {
    NoticeView {
        subject: Some(name),
        severity: Severity::Warning,
        kind: "adopt"@,
        message: name + ": no longer this engine or its cluster peer — forgotten"@,
    }
}

/// The nodes after adoption: the wanted ones adopted, and of those adopted
/// before only the ones that stay.
pub open spec fn adoption(
    nodes: Map<Seq<char>, NodeView>,
    wanted: Seq<NodeConfigView>,
    judge_peers: bool,
) -> Map<Seq<char>, NodeView> {
    let adopted = all_adopted(nodes, wanted);
    adopted.restrict(
        Set::new(
            |n: Seq<char>| adopted.contains_key(n) && stays(n, adopted[n], wanted, judge_peers),
        ),
    )
}

/// What is noted of an adoption.
pub open spec fn adoption_notices(
    nodes: Map<Seq<char>, NodeView>,
    wanted: Seq<NodeConfigView>,
    judge_peers: bool,
) -> Seq<NoticeView> {
    let gone = leavers(all_adopted(nodes, wanted), wanted, judge_peers);
    adopt_notices(nodes, wanted) + Seq::new(gone.len(), |i: int| drop_notice(gone[i]))
}

fn is_covered(nodes: &NameMap<Node>, config: &NodeConfig) -> (r: bool)
    ensures
        r == covered(nodes@, config@),
{
    let n: usize = nodes.len();
    let ghost keys = nodes.keys();
    let mut i: usize = 0;
    while i < n
        invariant
            i <= n,
            n == keys.len(),
            keys == nodes.keys(),
            keys.to_set() == nodes@.dom(),
            forall|j: int|
                0 <= j < i ==> ({
                    let node = nodes@[#[trigger] keys[j]];
                    !(node.status.source != NodeSource::Local && (node.config.name == config@.name
                        || node.config.engine_url == config@.engine_url))
                }),
        decreases n - i,
    {
        let node: &Node = nodes.value_at(i);
        assert(keys.to_set().contains(keys[i as int]));
        if node.status.source != NodeSource::Local && (text::same(
            node.config.name.as_str(),
            config.name.as_str(),
        ) || text::same(node.config.engine_url.as_str(), config.engine_url.as_str())) {
            assert(nodes@.contains_key(keys[i as int]));
            return true;
        }
        i = i + 1;
    }
    proof {
        if covered(nodes@, config@) {
            let k = choose|k: Seq<char>| #[trigger]
                nodes@.contains_key(k) && nodes@[k].status.source != NodeSource::Local && (
                nodes@[k].config.name == config@.name || nodes@[k].config.engine_url
                    == config@.engine_url);
            assert(keys.to_set().contains(k));
            let j = keys.index_of(k);
            assert(keys[j] == k);
        }
    }
    false
}

fn does_stay(name: &str, node: &Node, wanted: &Vec<NodeConfig>, judge_peers: bool) -> (r: bool)
    requires
        wanted.len() > 0,
    ensures
        r == stays(name@, node@, wanted.deep_view(), judge_peers),
{
    if node.status.source != NodeSource::Local {
        return true;
    }
    let mut i: usize = 0;
    while i < wanted.len()
        invariant
            i <= wanted.len(),
            forall|j: int| 0 <= j < i ==> #[trigger] wanted.deep_view()[j].name != name@,
        decreases wanted.len() - i,
    {
        assert(wanted.deep_view()[i as int] == wanted[i as int]@);
        if text::same(wanted[i].name.as_str(), name) {
            assert(wanted.deep_view()[i as int].name == name@);
            return true;
        }
        i = i + 1;
    }
    assert(wanted.deep_view()[0] == wanted[0]@);
    !judge_peers && !text::same(
        node.config.engine_url.as_str(),
        wanted[0].engine_url.as_str(),
    )
}

/// Adopts the wanted nodes, and forgets the adopted ones that do not stay.
fn adopt(nodes: &mut NameMap<Node>, wanted: &Vec<NodeConfig>, judge_peers: bool) -> (r: Vec<Notice>)
    requires
        wanted.len() > 0,
    ensures
        final(nodes)@ == adoption(old(nodes)@, wanted.deep_view(), judge_peers),
        r.deep_view() == adoption_notices(old(nodes)@, wanted.deep_view(), judge_peers),
{
    let ghost all = wanted.deep_view();
    let ghost before = nodes@;
    let mut notices: Vec<Notice> = Vec::new();
    let mut i: usize = 0;
    assert(all.take(0) =~= Seq::<NodeConfigView>::empty());
    assert(notices.deep_view() =~= Seq::<NoticeView>::empty());
    while i < wanted.len()
        invariant
            i <= wanted.len(),
            all == wanted.deep_view(),
            nodes@ == all_adopted(before, all.take(i as int)),
            notices.deep_view() == adopt_notices(before, all.take(i as int)),
        decreases wanted.len() - i,
    {
        let nc: &NodeConfig = &wanted[i];
        assert(all.take(i + 1).drop_last() =~= all.take(i as int));
        assert(all.take(i + 1).last() == nc@);
        let ghost was = notices.deep_view();
        if !is_covered(nodes, nc) {
            let known: Option<NodeStatus> = match nodes.get(nc.name.as_str()) {
                Some(n) => Some(n.status.dup()),
                None => None,
            };
            let status: NodeStatus = match known {
                Some(s) => s,
                None => {
                    let message: String = text::owned("adopted ").concat(nc.name.as_str()).concat(
                        " (",
                    ).concat(nc.engine_url.as_str()).concat(")");
                    notices.push(
                        Notice {
                            subject: None,
                            severity: Severity::Info,
                            kind: text::owned("adopt"),
                            message,
                        },
                    );
                    assert(notices.deep_view() =~= was.push(notices.deep_view().last()));
                    NodeStatus::new(NodeSource::Local)
                },
            };
            nodes.insert(nc.name.clone(), Node { config: nc.dup(), status });
        }
        i = i + 1;
    }
    assert(all.take(i as int) =~= all);
    let ghost adopted = nodes@;
    let ghost told = notices.deep_view();
    let ghost keys = nodes.keys();
    let ghost leaving = |n: Seq<char>| !stays(n, adopted[n], all, judge_peers);
    let n: usize = nodes.len();
    let mut keep: NameSet = NameSet::new();
    let mut k: usize = 0;
    proof {
        reveal(Seq::filter);
        assert(notices.deep_view() =~= told + Seq::new(
            keys.take(0).filter(leaving).len(),
            |p: int| drop_notice(keys.take(0).filter(leaving)[p]),
        ));
    }
    while k < n
        invariant
            k <= n,
            n == keys.len(),
            keys == nodes.keys(),
            keys.to_set() == nodes@.dom(),
            nodes@ == adopted,
            all == wanted.deep_view(),
            wanted.len() > 0,
            leaving == (|n: Seq<char>| !stays(n, adopted[n], all, judge_peers)),
            notices.deep_view() == told + Seq::new(
                keys.take(k as int).filter(leaving).len(),
                |p: int| drop_notice(keys.take(k as int).filter(leaving)[p]),
            ),
            forall|x: Seq<char>| #[trigger]
                keep@.contains(x) ==> adopted.contains_key(x) && stays(
                    x,
                    adopted[x],
                    all,
                    judge_peers,
                ),
            forall|j: int|
                0 <= j < k && stays(#[trigger] keys[j], adopted[keys[j]], all, judge_peers)
                    ==> keep@.contains(keys[j]),
        decreases n - k,
    {
        let name: &String = nodes.key_at(k);
        let node: &Node = nodes.value_at(k);
        let ghost was = notices.deep_view();
        let ghost old_gone = keys.take(k as int).filter(leaving);
        proof {
            assert(keys.take(k + 1).drop_last() =~= keys.take(k as int));
            assert(keys.take(k + 1).last() == name@);
            reveal(Seq::filter);
        }
        let ghost gone = keys.take(k + 1).filter(leaving);
        if does_stay(name.as_str(), node, wanted, judge_peers) {
            keep.insert(name.clone());
            assert(gone == old_gone);
        } else {
            let message: String = name.clone().concat(
                ": no longer this engine or its cluster peer — forgotten",
            );
            notices.push(events::notice(name.as_str(), Severity::Warning, "adopt", message));
            assert(notices.deep_view() =~= was.push(drop_notice(name@)));
            assert(gone == old_gone.push(name@));
        }
        assert(notices.deep_view() =~= told + Seq::new(
            gone.len(),
            |p: int| drop_notice(gone[p]),
        ));
        k = k + 1;
    }
    proof {
        assert(keys.take(k as int) =~= keys);
        let want = Set::new(
            |x: Seq<char>| adopted.contains_key(x) && stays(x, adopted[x], all, judge_peers),
        );
        assert forall|x: Seq<char>| want.contains(x) implies keep@.contains(x) by {
            assert(keys.to_set().contains(x));
            let j = keys.index_of(x);
            assert(keep@.contains(keys[j]));
        }
        assert(keep@ =~= want);
        assert(notices.deep_view() =~= adoption_notices(before, all, judge_peers));
    }
    nodes.retain(&keep);
    notices
}

/// Adopt the engine on this machine once it answers, and the live peers of its
/// cluster. Nodes that the configuration or a heartbeat already names are left
/// as they are. Without a discovery answer this time, peers are not judged;
/// without any answer nothing is done. Gives back what is to be noted.
pub fn adopt_local(
    fed: &mut FedState,
    local: &LocalConfig,
    token: &Option<String>,
    discovery: &Option<Discovery>,
    capacity_answers: bool,
    host: &Option<String>,
) -> (r: Vec<Notice>)
    ensures
        final(fed)@.revision == old(fed)@.revision,
        final(fed)@.volumes == old(fed)@.volumes,
        discovery is None && !capacity_answers ==> final(fed)@ == old(fed)@ && r.deep_view()
            == Seq::<NoticeView>::empty(),
        discovery is Some || capacity_answers ==> ({
            let nodes = wanted_nodes(
                local@,
                token.deep_view(),
                discovery.deep_view(),
                host.deep_view(),
            );
            let judge_peers = discovery is Some || !local@.cluster_peers;
            &&& final(fed)@ == (FedStateView {
                nodes: adoption(old(fed)@.nodes, nodes, judge_peers),
                ..old(fed)@
            })
            &&& r.deep_view() == adoption_notices(old(fed)@.nodes, nodes, judge_peers)
        }),
{
    if discovery.is_none() && !capacity_answers {
        let none: Vec<Notice> = Vec::new();
        assert(none.deep_view() =~= Seq::<NoticeView>::empty());
        return none;
    }
    let nodes: Vec<NodeConfig> = wanted(local, token, discovery, host);
    let judge_peers: bool = discovery.is_some() || !local.cluster_peers;
    assert(nodes.deep_view().len() > 0);
    adopt(&mut fed.nodes, &nodes, judge_peers)
}

/// Adoption leaves every node under its own name.
pub proof fn adoption_keyed(
    nodes: Map<Seq<char>, NodeView>,
    wanted: Seq<NodeConfigView>,
    judge_peers: bool,
)
    requires
        model::keyed(nodes),
    ensures
        model::keyed(adoption(nodes, wanted, judge_peers)),
{
    all_adopted_keyed(nodes, wanted);
}

proof fn all_adopted_keyed(nodes: Map<Seq<char>, NodeView>, wanted: Seq<NodeConfigView>)
    requires
        model::keyed(nodes),
    ensures
        model::keyed(all_adopted(nodes, wanted)),
    decreases wanted.len(),
{
    if wanted.len() > 0 {
        all_adopted_keyed(nodes, wanted.drop_last());
    }
}

/// A node that the configuration names or that announced itself is left exactly
/// as it is by adoption.
pub proof fn adoption_leaves_others(
    nodes: Map<Seq<char>, NodeView>,
    wanted: Seq<NodeConfigView>,
    judge_peers: bool,
    name: Seq<char>,
)
    requires
        model::keyed(nodes),
        nodes.contains_key(name),
        nodes[name].status.source != NodeSource::Local,
    ensures
        adoption(nodes, wanted, judge_peers).contains_key(name),
        adoption(nodes, wanted, judge_peers)[name] == nodes[name],
{
    all_adopted_leaves(nodes, wanted, name);
}

proof fn all_adopted_leaves(
    nodes: Map<Seq<char>, NodeView>,
    wanted: Seq<NodeConfigView>,
    name: Seq<char>,
)
    requires
        model::keyed(nodes),
        nodes.contains_key(name),
        nodes[name].status.source != NodeSource::Local,
    ensures
        all_adopted(nodes, wanted).contains_key(name),
        all_adopted(nodes, wanted)[name] == nodes[name],
    decreases wanted.len(),
{
    if wanted.len() > 0 {
        all_adopted_leaves(nodes, wanted.drop_last(), name);
        let before = all_adopted(nodes, wanted.drop_last());
        if wanted.last().name == name {
            assert(before.contains_key(name));
            assert(covered(before, wanted.last()));
        }
    }
}

/// Every node that adoption brings in is a local one: it is not told to peers.
pub proof fn adopted_are_local(
    nodes: Map<Seq<char>, NodeView>,
    wanted: Seq<NodeConfigView>,
    judge_peers: bool,
    name: Seq<char>,
)
    requires
        !nodes.contains_key(name),
        adoption(nodes, wanted, judge_peers).contains_key(name),
    ensures
        adoption(nodes, wanted, judge_peers)[name].status.source == NodeSource::Local,
{
    adopted_source(nodes, wanted, name);
}

proof fn adopted_source(
    nodes: Map<Seq<char>, NodeView>,
    wanted: Seq<NodeConfigView>,
    name: Seq<char>,
)
    requires
        !nodes.contains_key(name),
    ensures
        all_adopted(nodes, wanted).contains_key(name) ==> all_adopted(
            nodes,
            wanted,
        )[name].status.source == NodeSource::Local,
    decreases wanted.len(),
{
    if wanted.len() > 0 {
        adopted_source(nodes, wanted.drop_last(), name);
    }
}

} // verus!
