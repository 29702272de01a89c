//! Federation state: nodes and distributed volumes. Rebuildable in principle
//! from the registry plus each engine's volumes.

use crate::config::{NodeConfig, NodeConfigView};
use crate::engine::{AttachedLeg, AttachedLegView};
use crate::names::{Dup, NameMap};
use std::time::SystemTime;
use vstd::prelude::*;

verus! {

#[derive(Debug, Clone, Copy, PartialEq, Eq, Structural)]
pub enum NodeSource {
    /// From the configuration file.
    Static,
    /// Announced itself.
    Registered,
    /// Found as the engine on this machine or as a peer of its cluster.
    Local,
}

#[derive(Debug, Clone, Copy, PartialEq, Eq, Structural)]
pub enum LegState {
    /// Volume exists on the node.
    Created,
    /// Creation failed; message in the leg.
    Failed,
}

/// Whether a volume's legs are a mirrored whole.
#[derive(Debug, Clone, Copy, PartialEq, Eq, Structural)]
pub enum AssemblyState {
    /// Single leg: nothing to assemble.
    SingleLeg,
    /// Legs exist but the RAID is not (yet) assembled: either mid-flight or a
    /// failed assembly.
    PendingEngineSupport,
    /// RAID1 assembled on the head across every leg over NVMe-TCP.
    Assembled,
}

/// What is known of a node from watching it.
#[derive(Debug)]
pub struct NodeStatus {
    pub healthy: bool,
    pub last_ok: Option<SystemTime>,
    pub consecutive_failures: u32,
    pub total_bytes: u64,
    pub free_bytes: u64,
    /// Topology labels the engine reports (merged under config labels:
    /// config wins on conflict).
    pub engine_topology: NameMap<String>,
    pub volumes: u64,
    pub source: NodeSource,
}

/// What a [`NodeStatus`] holds.
#[verifier::ext_equal]
pub struct NodeStatusView {
    pub healthy: bool,
    pub last_ok: Option<SystemTime>,
    pub consecutive_failures: u32,
    pub total_bytes: u64,
    pub free_bytes: u64,
    pub engine_topology: Map<Seq<char>, Seq<char>>,
    pub volumes: u64,
    pub source: NodeSource,
}

impl View for NodeStatus {
    type V = NodeStatusView;

    open spec fn view(&self) -> NodeStatusView {
        NodeStatusView {
            healthy: self.healthy,
            last_ok: self.last_ok,
            consecutive_failures: self.consecutive_failures,
            total_bytes: self.total_bytes,
            free_bytes: self.free_bytes,
            engine_topology: self.engine_topology@,
            volumes: self.volumes,
            source: self.source,
        }
    }
}

impl DeepView for NodeStatus {
    type V = NodeStatusView;

    open spec fn deep_view(&self) -> NodeStatusView {
        self@
    }
}

impl Dup for NodeStatus {
    fn dup(&self) -> (r: Self) {
        NodeStatus {
            healthy: self.healthy,
            last_ok: self.last_ok,
            consecutive_failures: self.consecutive_failures,
            total_bytes: self.total_bytes,
            free_bytes: self.free_bytes,
            engine_topology: self.engine_topology.dup(),
            volumes: self.volumes,
            source: self.source,
        }
    }
}

impl Clone for NodeStatus {
    fn clone(&self) -> (r: Self)
        ensures
            r@ == self@,
    {
        self.dup()
    }
}

#[derive(Debug)]
pub struct Node {
    pub config: NodeConfig,
    pub status: NodeStatus,
}

/// What a [`Node`] holds.
#[verifier::ext_equal]
pub struct NodeView {
    pub config: NodeConfigView,
    pub status: NodeStatusView,
}

impl View for Node {
    type V = NodeView;

    open spec fn view(&self) -> NodeView {
        NodeView {
            config: self.config@,
            status: self.status@,
        }
    }
}

impl DeepView for Node {
    type V = NodeView;

    open spec fn deep_view(&self) -> NodeView {
        self@
    }
}

impl Dup for Node {
    fn dup(&self) -> (r: Self) {
        Node {
            config: self.config.dup(),
            status: self.status.dup(),
        }
    }
}

impl Clone for Node {
    fn clone(&self) -> (r: Self)
        ensures
            r@ == self@,
    {
        self.dup()
    }
}

/// One side of a distributed volume: an ordinary volume on one node.
#[derive(Debug)]
pub struct Leg {
    pub node: String,
    pub volume_id: Option<String>,
    pub state: LegState,
    pub message: Option<String>,
    /// The engine's own node name: read-write attach is gated on it.
    pub master_node: Option<String>,
    /// Attach coordinates once the leg is exported over NVMe-TCP.
    pub export: Option<AttachedLeg>,
    /// The head engine's drive uuid for this leg.
    pub drive_uuid: Option<String>,
    /// The head array's member uuid for this leg.
    pub member_uuid: Option<String>,
}

/// What a [`Leg`] holds.
#[verifier::ext_equal]
pub struct LegView {
    pub node: Seq<char>,
    pub volume_id: Option<Seq<char>>,
    pub state: LegState,
    pub message: Option<Seq<char>>,
    pub master_node: Option<Seq<char>>,
    pub export: Option<AttachedLegView>,
    pub drive_uuid: Option<Seq<char>>,
    pub member_uuid: Option<Seq<char>>,
}

impl View for Leg {
    type V = LegView;

    open spec fn view(&self) -> LegView {
        LegView {
            node: self.node@,
            volume_id: self.volume_id.deep_view(),
            state: self.state,
            message: self.message.deep_view(),
            master_node: self.master_node.deep_view(),
            export: self.export.deep_view(),
            drive_uuid: self.drive_uuid.deep_view(),
            member_uuid: self.member_uuid.deep_view(),
        }
    }
}

impl DeepView for Leg {
    type V = LegView;

    open spec fn deep_view(&self) -> LegView {
        self@
    }
}

impl Dup for Leg {
    fn dup(&self) -> (r: Self) {
        Leg {
            node: self.node.clone(),
            volume_id: self.volume_id.dup(),
            state: self.state,
            message: self.message.dup(),
            master_node: self.master_node.dup(),
            export: self.export.dup(),
            drive_uuid: self.drive_uuid.dup(),
            member_uuid: self.member_uuid.dup(),
        }
    }
}

impl Clone for Leg {
    fn clone(&self) -> (r: Self)
        ensures
            r@ == self@,
    {
        self.dup()
    }
}

/// A volume made of legs on several nodes.
#[derive(Debug)]
pub struct DistVolume {
    pub name: String,
    pub size_bytes: u64,
    pub pool: Option<String>,
    pub replicas: u32,
    pub rung: String,
    pub legs: Vec<Leg>,
    pub assembly: AssemblyState,
    /// Node whose engine holds the assembled array.
    pub head: Option<String>,
    /// Array id on the head engine.
    pub array_id: Option<String>,
    pub created_at: SystemTime,
}

/// What a [`DistVolume`] holds.
#[verifier::ext_equal]
pub struct DistVolumeView {
    pub name: Seq<char>,
    pub size_bytes: u64,
    pub pool: Option<Seq<char>>,
    pub replicas: u32,
    pub rung: Seq<char>,
    pub legs: Seq<LegView>,
    pub assembly: AssemblyState,
    pub head: Option<Seq<char>>,
    pub array_id: Option<Seq<char>>,
    pub created_at: SystemTime,
}

impl View for DistVolume {
    type V = DistVolumeView;

    open spec fn view(&self) -> DistVolumeView {
        DistVolumeView {
            name: self.name@,
            size_bytes: self.size_bytes,
            pool: self.pool.deep_view(),
            replicas: self.replicas,
            rung: self.rung@,
            legs: self.legs.deep_view(),
            assembly: self.assembly,
            head: self.head.deep_view(),
            array_id: self.array_id.deep_view(),
            created_at: self.created_at,
        }
    }
}

impl DeepView for DistVolume {
    type V = DistVolumeView;

    open spec fn deep_view(&self) -> DistVolumeView {
        self@
    }
}

impl Dup for DistVolume {
    fn dup(&self) -> (r: Self) {
        DistVolume {
            name: self.name.clone(),
            size_bytes: self.size_bytes,
            pool: self.pool.dup(),
            replicas: self.replicas,
            rung: self.rung.clone(),
            legs: self.legs.dup(),
            assembly: self.assembly,
            head: self.head.dup(),
            array_id: self.array_id.dup(),
            created_at: self.created_at,
        }
    }
}

impl Clone for DistVolume {
    fn clone(&self) -> (r: Self)
        ensures
            r@ == self@,
    {
        self.dup()
    }
}

#[derive(Debug)]
pub struct FedState {
    /// Bumped on every durable-intent mutation (volumes, registered nodes):
    /// the replication watermark. Poll status never bumps it, so peers each
    /// observing the engines cannot ping-pong overwrites.
    pub revision: u64,
    pub nodes: NameMap<Node>,
    pub volumes: NameMap<DistVolume>,
}

/// What a [`FedState`] holds.
#[verifier::ext_equal]
pub struct FedStateView {
    pub revision: u64,
    pub nodes: Map<Seq<char>, NodeView>,
    pub volumes: Map<Seq<char>, DistVolumeView>,
}

impl View for FedState {
    type V = FedStateView;

    open spec fn view(&self) -> FedStateView {
        FedStateView {
            revision: self.revision,
            nodes: self.nodes@,
            volumes: self.volumes@,
        }
    }
}

impl DeepView for FedState {
    type V = FedStateView;

    open spec fn deep_view(&self) -> FedStateView {
        self@
    }
}

impl Dup for FedState {
    fn dup(&self) -> (r: Self) {
        FedState {
            revision: self.revision,
            nodes: self.nodes.dup(),
            volumes: self.volumes.dup(),
        }
    }
}

impl Clone for FedState {
    fn clone(&self) -> (r: Self)
        ensures
            r@ == self@,
    {
        self.dup()
    }
}

impl NodeStatusView {
    /// The status of a node that has not been heard of yet.
    pub open spec fn fresh(source: NodeSource) -> Self {
        NodeStatusView {
            healthy: false,
            last_ok: None,
            consecutive_failures: 0,
            total_bytes: 0,
            free_bytes: 0,
            engine_topology: Map::empty(),
            volumes: 0,
            source,
        }
    }
}

impl NodeStatus {
    /// The status of a node that has not been heard of yet.
    pub fn new(source: NodeSource) -> (r: Self)
        ensures
            r@ == NodeStatusView::fresh(source),
    {
        NodeStatus {
            healthy: false,
            last_ok: None,
            consecutive_failures: 0,
            total_bytes: 0,
            free_bytes: 0,
            engine_topology: NameMap::new(),
            volumes: 0,
            source,
        }
    }
}

impl NodeView {
    /// What the engine reports, overridden by what the configuration says.
    pub open spec fn labels(self) -> Map<Seq<char>, Seq<char>> {
        self.status.engine_topology.union_prefer_right(self.config.effective_labels())
    }
}

impl Node {
    /// Effective labels: engine topology, overridden by config labels, with
    /// the single-node defaults (node and cluster are the name).
    pub fn labels(&self) -> (r: NameMap<String>)
        ensures
            r@ == self@.labels(),
    {
        let mut l: NameMap<String> = self.status.engine_topology.dup();
        l.extend(&self.config.effective_labels());
        l
    }
}

/// A label that the configuration states, or that is given by default, is
/// never overridden by the engine.
pub proof fn config_labels_win(node: NodeView, rung: Seq<char>)
    requires
        node.config.effective_labels().contains_key(rung),
    ensures
        node.labels().contains_key(rung),
        node.labels()[rung] == node.config.effective_labels()[rung],
{
}

impl FedStateView {
    pub open spec fn empty() -> Self {
        FedStateView { revision: 0, nodes: Map::empty(), volumes: Map::empty() }
    }
}

impl Default for FedState {
    fn default() -> (r: Self)
        ensures
            r@ == FedStateView::empty(),
    {
        FedState { revision: 0, nodes: NameMap::new(), volumes: NameMap::new() }
    }
}

/// Every node stands under its own name.
pub open spec fn keyed(nodes: Map<Seq<char>, NodeView>) -> bool {
    forall|k: Seq<char>| #[trigger] nodes.contains_key(k) ==> nodes[k].config.name == k
}

/// A node as the configuration has it, with the status it had.
pub open spec fn configured_node(
    known: Map<Seq<char>, NodeView>,
    config: NodeConfigView,
) -> NodeView {
    NodeView {
        config,
        status: if known.contains_key(config.name) {
            NodeStatusView { source: NodeSource::Static, ..known[config.name].status }
        } else {
            NodeStatusView::fresh(NodeSource::Static)
        },
    }
}

/// The nodes once each of the configured ones is overlaid, in turn.
pub open spec fn overlaid(
    known: Map<Seq<char>, NodeView>,
    configured: Seq<NodeConfigView>,
) -> Map<Seq<char>, NodeView>
    decreases configured.len(),
{
    if configured.len() == 0 {
        known
    } else {
        let before = overlaid(known, configured.drop_last());
        before.insert(configured.last().name, configured_node(before, configured.last()))
    }
}

impl FedState {
    /// Overlay static config nodes: config is authoritative for engine URL,
    /// labels and tier of nodes it names; persisted status is kept.
    pub fn apply_config_nodes(&mut self, configured: &[NodeConfig])
        ensures
            final(self)@ == (FedStateView {
                nodes: overlaid(old(self)@.nodes, configured.deep_view()),
                ..old(self)@
            }),
    {
        let ghost cs = configured.deep_view();
        let ghost known = self@.nodes;
        let mut i: usize = 0;
        assert(cs.take(0) =~= Seq::<NodeConfigView>::empty());
        while i < configured.len()
            invariant
                i <= configured.len(),
                cs == configured.deep_view(),
                self@.nodes == overlaid(known, cs.take(i as int)),
                self@.revision == old(self)@.revision,
                self@.volumes == old(self)@.volumes,
            decreases configured.len() - i,
        {
            let nc: &NodeConfig = &configured[i];
            proof {
                assert(cs.take(i + 1).drop_last() =~= cs.take(i as int));
                assert(cs.take(i + 1).last() == nc@);
            }
            let status: NodeStatus = match self.nodes.get(nc.name.as_str()) {
                Some(n) => {
                    let mut status: NodeStatus = n.status.dup();
                    status.source = NodeSource::Static;
                    status
                },
                None => NodeStatus::new(NodeSource::Static),
            };
            self.nodes.insert(nc.name.clone(), Node { config: nc.dup(), status });
            i = i + 1;
        }
        assert(cs.take(i as int) =~= cs);
    }
}

/// The overlay takes the configuration's word for each node it names, keeps
/// what was known of its status, and touches no other node.
pub proof fn overlay_keeps_status(
    known: Map<Seq<char>, NodeView>,
    configured: Seq<NodeConfigView>,
    name: Seq<char>,
)
    ensures
        (forall|i: int| 0 <= i < configured.len() ==> (#[trigger] configured[i]).name != name)
            ==> overlaid(known, configured).contains_key(name) == known.contains_key(name)
            && overlaid(known, configured)[name] == known[name],
        forall|i: int|
            0 <= i < configured.len() && (#[trigger] configured[i]).name == name && (forall|j: int|
                i < j < configured.len() ==> (#[trigger] configured[j]).name != name) ==> {
                let node = overlaid(known, configured)[name];
                &&& overlaid(known, configured).contains_key(name)
                &&& node.config == configured[i]
                &&& node.status.source == NodeSource::Static
                &&& known.contains_key(name) ==> node.status == (NodeStatusView {
                    source: NodeSource::Static,
                    ..known[name].status
                })
                &&& !known.contains_key(name) ==> node.status == NodeStatusView::fresh(
                    NodeSource::Static,
                )
            },
    decreases configured.len(),
{
    if configured.len() > 0 {
        let front = configured.drop_last();
        overlay_keeps_status(known, front, name);
        assert(forall|j: int| 0 <= j < front.len() ==> #[trigger] configured[j] == front[j]);
        assert(configured.last() == configured[configured.len() - 1]);
        assert forall|i: int|
            0 <= i < configured.len() && (#[trigger] configured[i]).name == name && (forall|j: int|
                i < j < configured.len() ==> (#[trigger] configured[j]).name != name) implies {
            let node = overlaid(known, configured)[name];
            &&& overlaid(known, configured).contains_key(name)
            &&& node.config == configured[i]
            &&& node.status.source == NodeSource::Static
            &&& known.contains_key(name) ==> node.status == (NodeStatusView {
                source: NodeSource::Static,
                ..known[name].status
            })
            &&& !known.contains_key(name) ==> node.status == NodeStatusView::fresh(
                NodeSource::Static,
            )
        } by {
            if i == configured.len() - 1 {
                if forall|j: int| 0 <= j < front.len() ==> (#[trigger] front[j]).name != name {
                } else {
                    last_named(front, name);
                }
            } else {
                assert(configured[configured.len() - 1].name != name);
                assert(front[i].name == name);
                assert forall|j: int| i < j < front.len() implies (#[trigger] front[j]).name
                    != name by {
                    assert(configured[j].name != name);
                }
            }
        }
    }
}

/// The overlay leaves every node under its own name.
pub proof fn overlay_keyed(known: Map<Seq<char>, NodeView>, configured: Seq<NodeConfigView>)
    requires
        keyed(known),
    ensures
        keyed(overlaid(known, configured)),
    decreases configured.len(),
{
    if configured.len() > 0 {
        overlay_keyed(known, configured.drop_last());
    }
}

/// Where a name is configured, one of the nodes of that name is the last.
proof fn last_named(configured: Seq<NodeConfigView>, name: Seq<char>)
    requires
        exists|i: int| 0 <= i < configured.len() && (#[trigger] configured[i]).name == name,
    ensures
        exists|i: int|
            0 <= i < configured.len() && (#[trigger] configured[i]).name == name && (forall|j: int|
                i < j < configured.len() ==> (#[trigger] configured[j]).name != name),
    decreases configured.len(),
{
    let n = configured.len() - 1;
    if configured[n].name != name {
        let front = configured.drop_last();
        let i = choose|i: int| 0 <= i < configured.len() && (#[trigger] configured[i]).name == name;
        assert(front[i].name == name);
        last_named(front, name);
        let k = choose|k: int|
            0 <= k < front.len() && (#[trigger] front[k]).name == name && (forall|j: int|
                k < j < front.len() ==> (#[trigger] front[j]).name != name);
        assert(configured[k].name == name);
        assert forall|j: int| k < j < configured.len() implies (#[trigger] configured[j]).name
            != name by {
            if j < n {
                assert(front[j].name != name);
            }
        }
    }
}

} // verus!
