//! What the control plane answers: the rules behind its endpoints.

use crate::config;
use crate::config::{
    Config, ConfigView, NodeConfig, NodeConfigView, PoolConfig, PoolConfigView, Selector, SelectorView,
};
use crate::double;
use crate::engine;
use crate::engine::{Engine, EngineView};
use crate::events;
use crate::events::{Event, EventLog, Notice, NoticeView, Severity};
use crate::inventory;
use crate::inventory::{
    NodeInventory, NodeInventoryView, PlacedVolume, Slab, SlabView, TierRollup,
};
use crate::json::{Json, JsonView};
use crate::model;
use crate::model::{
    AssemblyState, DistVolume, DistVolumeView, FedState, FedStateView, Leg, LegState, LegView, Node,
    NodeSource, NodeStatus, NodeStatusView, NodeView,
};
use crate::names;
use crate::names::{Dup, NameMap};
use crate::orchestrate;
use crate::orchestrate::{Chore, ChoreView, Errand, ErrandView, Task, TaskView};
use crate::placement;
use crate::placement::{Candidate, CandidateView, Question};
use crate::text;
use std::time::SystemTime;
use vstd::prelude::*;
use vstd::string::*;

verus! {

/// The engine of a node.
pub open spec fn engine_at(node: NodeView) -> EngineView {
    EngineView::at(node.config.engine_url, node.config.api_token)
}

/// The engine of a node.
pub fn engine_for(node: &Node) -> (r: Engine)
    ensures
        r@ == engine_at(node@),
{
    Engine::new(node.config.engine_url.as_str(), node.config.api_token.dup())
}

/// The base URL of the engine at an address as engines announce it.
pub open spec fn engine_url(node_addr: Seq<char>) -> Seq<char> {
    if text::within(node_addr, "://"@) {
        text::trimmed_end(node_addr, '/')
    } else if text::within(node_addr, ":"@) {
        "http://"@ + node_addr
    } else {
        "http://"@ + node_addr + ":9090"@
    }
}

/// The base URL of the engine at an address as engines announce it: a URL, a
/// host with a port, or a bare host.
pub fn engine_url_from(node_addr: &str) -> (r: String)
    ensures
        r@ == engine_url(node_addr@),
{
    if text::contains(node_addr, "://") {
        text::trim_end(node_addr, '/')
    } else if text::contains(node_addr, ":") {
        text::owned("http://").concat(node_addr)
    } else {
        text::owned("http://").concat(node_addr).concat(":9090")
    }
}

/// The largest unit that a size is given in, and how many bytes it has.
pub open spec fn unit_for(v: nat) -> (nat, Seq<char>) {
    if v < 0x400 {
        (1, "B"@)
    } else if v < 0x10_0000 {
        (0x400, "KiB"@)
    } else if v < 0x4000_0000 {
        (0x10_0000, "MiB"@)
    } else if v < 0x100_0000_0000 {
        (0x4000_0000, "GiB"@)
    } else if v < 0x4_0000_0000_0000 {
        (0x100_0000_0000, "TiB"@)
    } else {
        (0x4_0000_0000_0000, "PiB"@)
    }
}

/// A size for people to read: with one decimal in the largest unit that fits,
/// of the size as a double holds it; in bytes it is exact.
pub open spec fn human_text(b: u64) -> Seq<char> {
    let v = double::nearest_whole(b as nat);
    let (size, unit) = unit_for(v);
    if size == 1 {
        text::dec(b as nat) + " B"@
    } else {
        let tenths = double::nearest_even(10 * v, size);
        text::dec(tenths / 10) + "."@ + text::dec(tenths % 10) + " "@ + unit
    }
}

/// A size for people to read.
pub fn human(b: u64) -> (r: String)
    ensures
        r@ == human_text(b),
{
    let v: u128 = double::whole(b);
    if v < 0x400 {
        return text::decimal(b).concat(" B");
    }
    let (size, unit): (u128, &str) = if v < 0x10_0000 {
        (0x400, "KiB")
    } else if v < 0x4000_0000 {
        (0x10_0000, "MiB")
    } else if v < 0x100_0000_0000 {
        (0x4000_0000, "GiB")
    } else if v < 0x4_0000_0000_0000 {
        (0x100_0000_0000, "TiB")
    } else {
        (0x4_0000_0000_0000, "PiB")
    };
    let tenths: u128 = double::round_even(10 * v, size);
    assert(tenths / 10 <= u64::MAX) by {
        let n = (10 * v) as int;
        let d = size as int;
        let q = n / d;
        assert(1024 * q <= n) by (nonlinear_arith)
            requires
                n >= 0,
                d >= 1024,
                q == n / d,
        ;
    }
    text::decimal((tenths / 10) as u64).concat(".").concat(
        text::decimal((tenths % 10) as u64).as_str(),
    ).concat(" ").concat(unit)
}

/// Why a request was not served.
#[derive(Debug, Clone, Copy, PartialEq, Eq, Structural)]
pub enum ErrorKind {
    NotFound,
    BadRequest,
    Conflict,
    /// An engine did not do what it was asked.
    Upstream,
}

/// An error as a client sees it.
#[derive(Debug)]
pub struct ApiError {
    pub kind: ErrorKind,
    pub message: String,
}

/// What a [`ApiError`] holds.
#[verifier::ext_equal]
pub struct ApiErrorView {
    pub kind: ErrorKind,
    pub message: Seq<char>,
}

impl View for ApiError {
    type V = ApiErrorView;

    open spec fn view(&self) -> ApiErrorView {
        ApiErrorView {
            kind: self.kind,
            message: self.message@,
        }
    }
}

impl DeepView for ApiError {
    type V = ApiErrorView;

    open spec fn deep_view(&self) -> ApiErrorView {
        self@
    }
}

impl Dup for ApiError {
    fn dup(&self) -> (r: Self) {
        ApiError {
            kind: self.kind,
            message: self.message.clone(),
        }
    }
}

impl Clone for ApiError {
    fn clone(&self) -> (r: Self)
        ensures
            r@ == self@,
    {
        self.dup()
    }
}

impl ErrorKind {
    /// The HTTP status.
    pub fn status(&self) -> (r: u16)
        ensures
            r == match *self {
                ErrorKind::NotFound => 404,
                ErrorKind::BadRequest => 400,
                ErrorKind::Conflict => 409u16,
                ErrorKind::Upstream => 502,
            },
    {
        match self {
            ErrorKind::NotFound => 404,
            ErrorKind::BadRequest => 400,
            ErrorKind::Conflict => 409,
            ErrorKind::Upstream => 502,
        }
    }

    /// The code in the error body.
    pub fn code(&self) -> (r: &'static str)
        ensures
            r@ == match *self {
                ErrorKind::NotFound => "not_found"@,
                ErrorKind::BadRequest => "bad_request"@,
                ErrorKind::Conflict => "conflict"@,
                ErrorKind::Upstream => "engine"@,
            },
    {
        match self {
            ErrorKind::NotFound => "not_found",
            ErrorKind::BadRequest => "bad_request",
            ErrorKind::Conflict => "conflict",
            ErrorKind::Upstream => "engine",
        }
    }
}

impl ApiErrorView {
    pub open spec fn of(kind: ErrorKind, message: Seq<char>) -> Self {
        ApiErrorView { kind, message }
    }
}

impl ApiError {
    pub fn not_found(message: String) -> (r: Self)
        ensures
            r@ == ApiErrorView::of(ErrorKind::NotFound, message@),
    {
        ApiError { kind: ErrorKind::NotFound, message }
    }

    pub fn bad_request(message: String) -> (r: Self)
        ensures
            r@ == ApiErrorView::of(ErrorKind::BadRequest, message@),
    {
        ApiError { kind: ErrorKind::BadRequest, message }
    }

    pub fn conflict(message: String) -> (r: Self)
        ensures
            r@ == ApiErrorView::of(ErrorKind::Conflict, message@),
    {
        ApiError { kind: ErrorKind::Conflict, message }
    }

    pub fn upstream(message: String) -> (r: Self)
        ensures
            r@ == ApiErrorView::of(ErrorKind::Upstream, message@),
    {
        ApiError { kind: ErrorKind::Upstream, message }
    }
}

/// A node as it is listed.
#[derive(Debug)]
pub struct NodeListing {
    pub name: String,
    pub engine_url: String,
    pub tier: Option<String>,
    /// The effective labels.
    pub labels: NameMap<String>,
    pub status: NodeStatus,
}

/// What a [`NodeListing`] holds.
#[verifier::ext_equal]
pub struct NodeListingView {
    pub name: Seq<char>,
    pub engine_url: Seq<char>,
    pub tier: Option<Seq<char>>,
    pub labels: Map<Seq<char>, Seq<char>>,
    pub status: NodeStatusView,
}

impl View for NodeListing {
    type V = NodeListingView;

    open spec fn view(&self) -> NodeListingView {
        NodeListingView {
            name: self.name@,
            engine_url: self.engine_url@,
            tier: self.tier.deep_view(),
            labels: self.labels@,
            status: self.status@,
        }
    }
}

impl DeepView for NodeListing {
    type V = NodeListingView;

    open spec fn deep_view(&self) -> NodeListingView {
        self@
    }
}

impl Dup for NodeListing {
    fn dup(&self) -> (r: Self) {
        NodeListing {
            name: self.name.clone(),
            engine_url: self.engine_url.clone(),
            tier: self.tier.dup(),
            labels: self.labels.dup(),
            status: self.status.dup(),
        }
    }
}

impl Clone for NodeListing {
    fn clone(&self) -> (r: Self)
        ensures
            r@ == self@,
    {
        self.dup()
    }
}

/// One rung that a node has a label for.
#[derive(Debug)]
pub struct ChainLink {
    pub rung: String,
    pub value: String,
}

/// What a [`ChainLink`] holds.
#[verifier::ext_equal]
pub struct ChainLinkView {
    pub rung: Seq<char>,
    pub value: Seq<char>,
}

impl View for ChainLink {
    type V = ChainLinkView;

    open spec fn view(&self) -> ChainLinkView {
        ChainLinkView {
            rung: self.rung@,
            value: self.value@,
        }
    }
}

impl DeepView for ChainLink {
    type V = ChainLinkView;

    open spec fn deep_view(&self) -> ChainLinkView {
        self@
    }
}

impl Dup for ChainLink {
    fn dup(&self) -> (r: Self) {
        ChainLink {
            rung: self.rung.clone(),
            value: self.value.clone(),
        }
    }
}

impl Clone for ChainLink {
    fn clone(&self) -> (r: Self)
        ensures
            r@ == self@,
    {
        self.dup()
    }
}

/// Where a node stands in the federation tree.
#[derive(Debug)]
pub struct NodeTopology {
    pub name: String,
    pub chain: Vec<ChainLink>,
    pub tier: Option<String>,
    pub healthy: bool,
}

/// What a [`NodeTopology`] holds.
#[verifier::ext_equal]
pub struct NodeTopologyView {
    pub name: Seq<char>,
    pub chain: Seq<ChainLinkView>,
    pub tier: Option<Seq<char>>,
    pub healthy: bool,
}

impl View for NodeTopology {
    type V = NodeTopologyView;

    open spec fn view(&self) -> NodeTopologyView {
        NodeTopologyView {
            name: self.name@,
            chain: self.chain.deep_view(),
            tier: self.tier.deep_view(),
            healthy: self.healthy,
        }
    }
}

impl DeepView for NodeTopology {
    type V = NodeTopologyView;

    open spec fn deep_view(&self) -> NodeTopologyView {
        self@
    }
}

impl Dup for NodeTopology {
    fn dup(&self) -> (r: Self) {
        NodeTopology {
            name: self.name.clone(),
            chain: self.chain.dup(),
            tier: self.tier.dup(),
            healthy: self.healthy,
        }
    }
}

impl Clone for NodeTopology {
    fn clone(&self) -> (r: Self)
        ensures
            r@ == self@,
    {
        self.dup()
    }
}

/// What a pool has, over the nodes that it draws from.
#[derive(Debug)]
pub struct PoolRollup {
    pub name: String,
    pub replicas: u32,
    pub rung: String,
    /// The nodes that it draws from.
    pub nodes: Vec<String>,
    pub matched: u32,
    pub healthy: u32,
    /// Over the healthy nodes.
    pub total_bytes: u64,
    /// Over the healthy nodes.
    pub free_bytes: u64,
}

/// What a [`PoolRollup`] holds.
#[verifier::ext_equal]
pub struct PoolRollupView {
    pub name: Seq<char>,
    pub replicas: u32,
    pub rung: Seq<char>,
    pub nodes: Seq<Seq<char>>,
    pub matched: u32,
    pub healthy: u32,
    pub total_bytes: u64,
    pub free_bytes: u64,
}

impl View for PoolRollup {
    type V = PoolRollupView;

    open spec fn view(&self) -> PoolRollupView {
        PoolRollupView {
            name: self.name@,
            replicas: self.replicas,
            rung: self.rung@,
            nodes: self.nodes.deep_view(),
            matched: self.matched,
            healthy: self.healthy,
            total_bytes: self.total_bytes,
            free_bytes: self.free_bytes,
        }
    }
}

impl DeepView for PoolRollup {
    type V = PoolRollupView;

    open spec fn deep_view(&self) -> PoolRollupView {
        self@
    }
}

impl Dup for PoolRollup {
    fn dup(&self) -> (r: Self) {
        PoolRollup {
            name: self.name.clone(),
            replicas: self.replicas,
            rung: self.rung.clone(),
            nodes: self.nodes.dup(),
            matched: self.matched,
            healthy: self.healthy,
            total_bytes: self.total_bytes,
            free_bytes: self.free_bytes,
        }
    }
}

impl Clone for PoolRollup {
    fn clone(&self) -> (r: Self)
        ensures
            r@ == self@,
    {
        self.dup()
    }
}

/// A slab as a pool of its node.
#[derive(Debug)]
pub struct SlabPool {
    pub node: String,
    pub slab: Slab,
    /// How many volumes are on it.
    pub volumes: usize,
}

/// What a [`SlabPool`] holds.
#[verifier::ext_equal]
pub struct SlabPoolView {
    pub node: Seq<char>,
    pub slab: SlabView,
    pub volumes: usize,
}

impl View for SlabPool {
    type V = SlabPoolView;

    open spec fn view(&self) -> SlabPoolView {
        SlabPoolView {
            node: self.node@,
            slab: self.slab@,
            volumes: self.volumes,
        }
    }
}

impl DeepView for SlabPool {
    type V = SlabPoolView;

    open spec fn deep_view(&self) -> SlabPoolView {
        self@
    }
}

impl Dup for SlabPool {
    fn dup(&self) -> (r: Self) {
        SlabPool {
            node: self.node.clone(),
            slab: self.slab.dup(),
            volumes: self.volumes,
        }
    }
}

impl Clone for SlabPool {
    fn clone(&self) -> (r: Self)
        ensures
            r@ == self@,
    {
        self.dup()
    }
}

impl NodeView {
    /// The node as it is listed.
    pub open spec fn listing(self) -> NodeListingView {
        NodeListingView {
            name: self.config.name,
            engine_url: self.config.engine_url,
            tier: self.config.tier,
            labels: self.labels(),
            status: self.status,
        }
    }

    /// Where the node stands in the federation tree.
    pub open spec fn topology(self, rungs: Seq<Seq<char>>) -> NodeTopologyView {
        NodeTopologyView {
            name: self.config.name,
            chain: chain_of(self.labels(), rungs),
            tier: self.config.tier,
            healthy: self.status.healthy,
        }
    }
}

/// The rungs that there is a label for, in order.
pub open spec fn chain_of(
    labels: Map<Seq<char>, Seq<char>>,
    rungs: Seq<Seq<char>>,
) -> Seq<ChainLinkView>
    decreases rungs.len(),
{
    if rungs.len() == 0 {
        Seq::empty()
    } else {
        let front = chain_of(labels, rungs.drop_last());
        if labels.contains_key(rungs.last()) {
            front.push(ChainLinkView { rung: rungs.last(), value: labels[rungs.last()] })
        } else {
            front
        }
    }
}

/// The registry, node by node.
pub fn list_nodes(fed: &FedState) -> (r: Vec<NodeListing>)
    ensures
        r.deep_view() == Seq::new(
            names::in_order(fed@.nodes).len(),
            |i: int| names::in_order(fed@.nodes)[i].listing(),
        ),
{
    let ghost all = names::in_order(fed@.nodes);
    let n: usize = fed.nodes.len();
    let mut r: Vec<NodeListing> = Vec::new();
    let mut i: usize = 0;
    while i < n
        invariant
            i <= n,
            n == fed.nodes.keys().len(),
            all == names::in_order(fed@.nodes),
            r.len() == i,
            forall|j: int| 0 <= j < i ==> (#[trigger] r[j])@ == all[j].listing(),
        decreases n - i,
    {
        let node: &Node = fed.nodes.value_at(i);
        r.push(
            NodeListing {
                name: node.config.name.clone(),
                engine_url: node.config.engine_url.clone(),
                tier: node.config.tier.dup(),
                labels: node.labels(),
                status: node.status.dup(),
            },
        );
        i = i + 1;
    }
    assert(r.deep_view() =~= Seq::new(
        all.len(),
        |k: int| names::in_order(fed@.nodes)[k].listing(),
    ));
    r
}

fn chain(labels: &NameMap<String>, rungs: &Vec<String>) -> (r: Vec<ChainLink>)
    ensures
        r.deep_view() == chain_of(labels@, rungs.deep_view()),
{
    let ghost all = rungs.deep_view();
    let mut r: Vec<ChainLink> = Vec::new();
    let mut i: usize = 0;
    assert(r.deep_view() =~= chain_of(labels@, all.take(0)));
    while i < rungs.len()
        invariant
            i <= rungs.len(),
            all == rungs.deep_view(),
            r.deep_view() == chain_of(labels@, all.take(i as int)),
        decreases rungs.len() - i,
    {
        let ghost was = r.deep_view();
        assert(all.take(i + 1).drop_last() =~= all.take(i as int));
        assert(all.take(i + 1).last() == rungs[i as int]@);
        if let Some(v) = labels.get(rungs[i].as_str()) {
            r.push(ChainLink { rung: rungs[i].clone(), value: v.clone() });
            assert(r.deep_view() =~= was.push(r.deep_view().last()));
        }
        i = i + 1;
    }
    assert(all.take(i as int) =~= all);
    r
}

/// Where each node stands in the federation tree.
pub fn topology(config: &Config, fed: &FedState) -> (r: Vec<NodeTopology>)
    ensures
        r.deep_view() == Seq::new(
            names::in_order(fed@.nodes).len(),
            |i: int| names::in_order(fed@.nodes)[i].topology(config@.federation.rungs),
        ),
{
    let ghost all = names::in_order(fed@.nodes);
    let n: usize = fed.nodes.len();
    let mut r: Vec<NodeTopology> = Vec::new();
    let mut i: usize = 0;
    while i < n
        invariant
            i <= n,
            n == fed.nodes.keys().len(),
            all == names::in_order(fed@.nodes),
            r.len() == i,
            forall|j: int|
                0 <= j < i ==> (#[trigger] r[j])@ == all[j].topology(config@.federation.rungs),
        decreases n - i,
    {
        let node: &Node = fed.nodes.value_at(i);
        r.push(
            NodeTopology {
                name: node.config.name.clone(),
                chain: chain(&node.labels(), &config.federation.rungs),
                tier: node.config.tier.dup(),
                healthy: node.status.healthy,
            },
        );
        i = i + 1;
    }
    assert(r.deep_view() =~= Seq::new(
        all.len(),
        |k: int| names::in_order(fed@.nodes)[k].topology(config@.federation.rungs),
    ));
    r
}

/// The nodes in the order of their names.
pub fn nodes_in(fed: &FedState) -> (r: Vec<&Node>)
    ensures
        r.deep_view() == names::in_order(fed@.nodes),
{
    let ghost all = names::in_order(fed@.nodes);
    let n: usize = fed.nodes.len();
    let mut r: Vec<&Node> = Vec::new();
    let mut i: usize = 0;
    while i < n
        invariant
            i <= n,
            n == fed.nodes.keys().len(),
            all == names::in_order(fed@.nodes),
            r.len() == i,
            forall|j: int| 0 <= j < i ==> (#[trigger] r[j])@ == all[j],
        decreases n - i,
    {
        r.push(fed.nodes.value_at(i));
        i = i + 1;
    }
    assert(r.deep_view() =~= all);
    r
}

/// Those of the nodes that a pool draws from.
pub open spec fn members_of(selector: SelectorView, nodes: Seq<NodeView>) -> Seq<NodeView>
    decreases nodes.len(),
{
    if nodes.len() == 0 {
        Seq::empty()
    } else {
        let front = members_of(selector, nodes.drop_last());
        if selector.matches(nodes.last().config) {
            front.push(nodes.last())
        } else {
            front
        }
    }
}

/// Those of the nodes that a pool draws from.
pub fn members<'a>(selector: &Selector, nodes: &Vec<&'a Node>) -> (r: Vec<&'a Node>)
    ensures
        r.deep_view() == members_of(selector@, nodes.deep_view()),
{
    let ghost all = nodes.deep_view();
    let mut r: Vec<&'a Node> = Vec::new();
    let mut i: usize = 0;
    assert(r.deep_view() =~= members_of(selector@, all.take(0)));
    while i < nodes.len()
        invariant
            i <= nodes.len(),
            all == nodes.deep_view(),
            r.deep_view() == members_of(selector@, all.take(i as int)),
        decreases nodes.len() - i,
    {
        let node: &'a Node = nodes[i];
        let ghost was = r.deep_view();
        assert(all.take(i + 1).drop_last() =~= all.take(i as int));
        assert(all.take(i + 1).last() == node@);
        if selector.matches(&node.config) {
            r.push(node);
            assert(r.deep_view() =~= was.push(node@));
        }
        i = i + 1;
    }
    assert(all.take(i as int) =~= all);
    r
}

/// The names of the nodes.
pub open spec fn names_of(nodes: Seq<NodeView>) -> Seq<Seq<char>> {
    Seq::new(nodes.len(), |i: int| nodes[i].config.name)
}

/// How many of the nodes are healthy.
pub open spec fn healthy_among(nodes: Seq<NodeView>) -> nat
    decreases nodes.len(),
{
    if nodes.len() == 0 {
        0
    } else {
        healthy_among(nodes.drop_last()) + if nodes.last().status.healthy {
            1nat
        } else {
            0
        }
    }
}

/// The sum of a figure over the healthy nodes.
pub open spec fn healthy_sum(nodes: Seq<NodeView>, figure: spec_fn(NodeView) -> nat) -> nat
    decreases nodes.len(),
{
    if nodes.len() == 0 {
        0
    } else {
        healthy_sum(nodes.drop_last(), figure) + if nodes.last().status.healthy {
            figure(nodes.last())
        } else {
            0
        }
    }
}

pub open spec fn total_of() -> spec_fn(NodeView) -> nat {
    |n: NodeView| n.status.total_bytes as nat
}

pub open spec fn free_of() -> spec_fn(NodeView) -> nat {
    |n: NodeView| n.status.free_bytes as nat
}

/// The sum over the first of the nodes is no more than the sum over all.
pub proof fn healthy_sum_grows(nodes: Seq<NodeView>, figure: spec_fn(NodeView) -> nat, n: int)
    requires
        0 <= n <= nodes.len(),
    ensures
        healthy_sum(nodes.take(n), figure) <= healthy_sum(nodes, figure),
    decreases nodes.len() - n,
{
    if n < nodes.len() {
        healthy_sum_grows(nodes, figure, n + 1);
        assert(nodes.take(n + 1).drop_last() =~= nodes.take(n));
    } else {
        assert(nodes.take(n) =~= nodes);
    }
}

/// There are no more healthy nodes than nodes.
pub proof fn healthy_at_most_all(nodes: Seq<NodeView>)
    ensures
        healthy_among(nodes) <= nodes.len(),
    decreases nodes.len(),
{
    if nodes.len() > 0 {
        healthy_at_most_all(nodes.drop_last());
    }
}

/// How many of the nodes are healthy.
pub fn count_healthy(nodes: &Vec<&Node>) -> (r: usize)
    ensures
        r == healthy_among(nodes.deep_view()),
        r <= nodes.len(),
{
    let ghost all = nodes.deep_view();
    let mut r: usize = 0;
    let mut i: usize = 0;
    while i < nodes.len()
        invariant
            r <= i <= nodes.len(),
            all == nodes.deep_view(),
            r == healthy_among(all.take(i as int)),
        decreases nodes.len() - i,
    {
        assert(all.take(i + 1).drop_last() =~= all.take(i as int));
        assert(all.take(i + 1).last() == nodes[i as int]@);
        if nodes[i].status.healthy {
            r = r + 1;
        }
        i = i + 1;
    }
    assert(all.take(i as int) =~= all);
    r
}

/// The free and the total bytes of the healthy nodes; nothing where they cannot
/// be counted.
pub fn healthy_bytes(nodes: &Vec<&Node>) -> (r: Option<(u64, u64)>)
    ensures
        r is Some <==> healthy_sum(nodes.deep_view(), free_of()) <= u64::MAX && healthy_sum(
            nodes.deep_view(),
            total_of(),
        ) <= u64::MAX,
        r matches Some(x) ==> x.0 == healthy_sum(nodes.deep_view(), free_of()) && x.1
            == healthy_sum(nodes.deep_view(), total_of()),
{
    let ghost all = nodes.deep_view();
    let mut free: u64 = 0;
    let mut total: u64 = 0;
    let mut i: usize = 0;
    while i < nodes.len()
        invariant
            i <= nodes.len(),
            all == nodes.deep_view(),
            free == healthy_sum(all.take(i as int), free_of()),
            total == healthy_sum(all.take(i as int), total_of()),
        decreases nodes.len() - i,
    {
        let node: &Node = nodes[i];
        proof {
            assert(all.take(i + 1).drop_last() =~= all.take(i as int));
            assert(all.take(i + 1).last() == node@);
            healthy_sum_grows(all, free_of(), i + 1);
            healthy_sum_grows(all, total_of(), i + 1);
        }
        if node.status.healthy {
            if free > u64::MAX - node.status.free_bytes || total > u64::MAX
                - node.status.total_bytes {
                return None;
            }
            free = free + node.status.free_bytes;
            total = total + node.status.total_bytes;
        }
        i = i + 1;
    }
    assert(all.take(i as int) =~= all);
    Some((free, total))
}

/// Whether what a pool has can be counted.
pub open spec fn pool_fits(pool: PoolConfigView, fed: FedStateView) -> bool {
    let nodes = members_of(pool.selector, names::in_order(fed.nodes));
    &&& nodes.len() <= u32::MAX
    &&& healthy_sum(nodes, free_of()) <= u64::MAX
    &&& healthy_sum(nodes, total_of()) <= u64::MAX
}

/// What a pool has, over the nodes that it draws from.
pub open spec fn pool_of(pool: PoolConfigView, fed: FedStateView) -> PoolRollupView {
    let nodes = members_of(pool.selector, names::in_order(fed.nodes));
    PoolRollupView {
        name: pool.name,
        replicas: pool.replicas,
        rung: pool.rung,
        nodes: names_of(nodes),
        matched: nodes.len() as u32,
        healthy: healthy_among(nodes) as u32,
        total_bytes: healthy_sum(nodes, total_of()) as u64,
        free_bytes: healthy_sum(nodes, free_of()) as u64,
    }
}

/// The names of the nodes.
pub fn name_list(nodes: &Vec<&Node>) -> (r: Vec<String>)
    ensures
        r.deep_view() == names_of(nodes.deep_view()),
{
    let mut r: Vec<String> = Vec::new();
    let mut i: usize = 0;
    while i < nodes.len()
        invariant
            i <= nodes.len(),
            r.len() == i,
            forall|j: int| 0 <= j < i ==> (#[trigger] r[j])@ == nodes[j]@.config.name,
        decreases nodes.len() - i,
    {
        r.push(nodes[i].config.name.clone());
        i = i + 1;
    }
    assert(r.deep_view() =~= names_of(nodes.deep_view()));
    r
}

/// What a pool has; nothing where it cannot be counted.
pub fn pool_rollup_checked(pool: &PoolConfig, fed: &FedState) -> (r: Option<PoolRollup>)
    ensures
        r is Some <==> pool_fits(pool@, fed@),
        r matches Some(p) ==> p@ == pool_of(pool@, fed@),
{
    let all: Vec<&Node> = nodes_in(fed);
    let nodes: Vec<&Node> = members(&pool.selector, &all);
    let healthy: usize = count_healthy(&nodes);
    if nodes.len() > u32::MAX as usize {
        return None;
    }
    match healthy_bytes(&nodes) {
        Some((free_bytes, total_bytes)) => Some(
            PoolRollup {
                name: pool.name.clone(),
                replicas: pool.replicas,
                rung: pool.rung.clone(),
                nodes: name_list(&nodes),
                matched: nodes.len() as u32,
                healthy: healthy as u32,
                total_bytes,
                free_bytes,
            },
        ),
        None => None,
    }
}

/// What a pool has, over the nodes that it draws from.
pub fn pool_rollup(pool: &PoolConfig, fed: &FedState) -> (r: PoolRollup)
    requires
        pool_fits(pool@, fed@),
    ensures
        r@ == pool_of(pool@, fed@),
{
    match pool_rollup_checked(pool, fed) {
        Some(p) => p,
        None => vstd::pervasive::unreached(),
    }
}

/// The slabs of one node as pools.
pub open spec fn slab_pools_of(node: Seq<char>, inv: NodeInventoryView) -> Seq<SlabPoolView> {
    Seq::new(
        inv.slabs.len(),
        |i: int|
            SlabPoolView {
                node,
                slab: inv.slabs[i],
                volumes: inventory::on_slab(inv.volumes, inv.slabs[i].id).len() as usize,
            },
    )
}

/// The slabs of these nodes as pools, node by node.
pub open spec fn slab_pools(
    all: Map<Seq<char>, NodeInventoryView>,
    nodes: Seq<Seq<char>>,
) -> Seq<SlabPoolView>
    decreases nodes.len(),
{
    if nodes.len() == 0 {
        Seq::empty()
    } else {
        slab_pools(all, nodes.drop_last()) + slab_pools_of(nodes.last(), all[nodes.last()])
    }
}

/// Every slab of every node as a pool.
pub fn list_slab_pools(all: &NameMap<NodeInventory>) -> (r: Vec<SlabPool>)
    ensures
        r.deep_view() == slab_pools(all@, names::sorted(all@.dom())),
{
    let n: usize = all.len();
    let ghost keys = all.keys();
    let mut r: Vec<SlabPool> = Vec::new();
    let mut i: usize = 0;
    assert(r.deep_view() =~= slab_pools(all@, keys.take(0)));
    while i < n
        invariant
            i <= n,
            n == keys.len(),
            keys == all.keys(),
            r.deep_view() == slab_pools(all@, keys.take(i as int)),
        decreases n - i,
    {
        let node: &String = all.key_at(i);
        let inv: &NodeInventory = all.value_at(i);
        let ghost done = r.deep_view();
        let ghost mine = slab_pools_of(node@, inv@);
        let mut j: usize = 0;
        assert(done + mine.take(0) =~= done);
        while j < inv.slabs.len()
            invariant
                j <= inv.slabs.len(),
                mine == slab_pools_of(node@, inv@),
                r.deep_view() == done + mine.take(j as int),
            decreases inv.slabs.len() - j,
        {
            let ghost was = r.deep_view();
            let slab: &Slab = &inv.slabs[j];
            let on: Vec<&PlacedVolume> = inventory::volumes_on(inv, slab.id.as_str());
            let volumes: usize = on.len();
            assert(inv@.slabs[j as int] == slab@);
            assert(on.deep_view().len() == on.len());
            r.push(SlabPool { node: node.clone(), slab: slab.dup(), volumes });
            assert(r.deep_view() =~= was.push(mine[j as int]));
            assert(done + mine.take(j + 1) =~= (done + mine.take(j as int)).push(mine[j as int]));
            j = j + 1;
        }
        proof {
            assert(mine.take(j as int) =~= mine);
            assert(keys.take(i + 1).drop_last() =~= keys.take(i as int));
            assert(keys.take(i + 1).last() == node@);
        }
        i = i + 1;
    }
    assert(keys.take(i as int) =~= keys);
    r
}

/// Every pool there is: those that are configured, the slabs, and the tiers.
#[derive(Debug)]
pub struct Pools {
    pub policy: Vec<PoolRollup>,
    pub slabs: Vec<SlabPool>,
    pub tiers: Vec<TierRollup>,
}

/// Every pool with what it has; nothing where that cannot be counted.
pub fn list_pools(
    config: &Config,
    fed: &FedState,
    all: &NameMap<NodeInventory>,
) -> (r: Option<Pools>)
    ensures
        r is Some <==> inventory::tiers_fit(all@) && forall|i: int|
            0 <= i < config@.pools.len() ==> pool_fits(#[trigger] config@.pools[i], fed@),
        r matches Some(p) ==> p.policy.deep_view() == Seq::new(
            config@.pools.len(),
            |i: int| pool_of(config@.pools[i], fed@),
        ) && p.slabs.deep_view() == slab_pools(all@, names::sorted(all@.dom()))
            && p.tiers.deep_view() == inventory::rollups(all@),
{
    let mut policy: Vec<PoolRollup> = Vec::new();
    let mut i: usize = 0;
    while i < config.pools.len()
        invariant
            i <= config.pools.len(),
            policy.len() == i,
            forall|j: int|
                0 <= j < i ==> pool_fits(#[trigger] config@.pools[j], fed@) && policy[j]@
                    == pool_of(config@.pools[j], fed@),
        decreases config.pools.len() - i,
    {
        assert(config@.pools[i as int] == config.pools[i as int]@);
        match pool_rollup_checked(&config.pools[i], fed) {
            Some(p) => {
                policy.push(p);
            },
            None => {
                assert(!pool_fits(config@.pools[i as int], fed@));
                return None;
            },
        }
        i = i + 1;
    }
    assert forall|j: int| 0 <= j < policy.len() implies policy.deep_view()[j] == pool_of(
        config@.pools[j],
        fed@,
    ) by {
        assert(pool_fits(config@.pools[j], fed@));
    }
    assert(policy.deep_view() =~= Seq::new(
        config@.pools.len(),
        |k: int| pool_of(config@.pools[k], fed@),
    ));
    match inventory::tiers_checked(all) {
        Some(tiers) => Some(Pools { policy, slabs: list_slab_pools(all), tiers }),
        None => None,
    }
}

/// What a placement is asked for.
#[derive(Debug)]
pub struct PlanRequest {
    pub pool: Option<String>,
    pub size_bytes: u64,
    pub replicas: Option<u32>,
    pub rung: Option<String>,
    pub tier: Option<String>,
}

/// What a [`PlanRequest`] holds.
#[verifier::ext_equal]
pub struct PlanRequestView {
    pub pool: Option<Seq<char>>,
    pub size_bytes: u64,
    pub replicas: Option<u32>,
    pub rung: Option<Seq<char>>,
    pub tier: Option<Seq<char>>,
}

impl View for PlanRequest {
    type V = PlanRequestView;

    open spec fn view(&self) -> PlanRequestView {
        PlanRequestView {
            pool: self.pool.deep_view(),
            size_bytes: self.size_bytes,
            replicas: self.replicas,
            rung: self.rung.deep_view(),
            tier: self.tier.deep_view(),
        }
    }
}

impl DeepView for PlanRequest {
    type V = PlanRequestView;

    open spec fn deep_view(&self) -> PlanRequestView {
        self@
    }
}

impl Dup for PlanRequest {
    fn dup(&self) -> (r: Self) {
        PlanRequest {
            pool: self.pool.dup(),
            size_bytes: self.size_bytes,
            replicas: self.replicas,
            rung: self.rung.dup(),
            tier: self.tier.dup(),
        }
    }
}

impl Clone for PlanRequest {
    fn clone(&self) -> (r: Self)
        ensures
            r@ == self@,
    {
        self.dup()
    }
}

/// A placement request with what its pool and the defaults add to it.
#[derive(Debug)]
pub struct ResolvedPlan {
    pub replicas: u32,
    pub rung: String,
    pub candidates: Vec<Candidate>,
}

/// What a [`ResolvedPlan`] holds.
#[verifier::ext_equal]
pub struct ResolvedPlanView {
    pub replicas: u32,
    pub rung: Seq<char>,
    pub candidates: Seq<CandidateView>,
}

impl View for ResolvedPlan {
    type V = ResolvedPlanView;

    open spec fn view(&self) -> ResolvedPlanView {
        ResolvedPlanView {
            replicas: self.replicas,
            rung: self.rung@,
            candidates: self.candidates.deep_view(),
        }
    }
}

impl DeepView for ResolvedPlan {
    type V = ResolvedPlanView;

    open spec fn deep_view(&self) -> ResolvedPlanView {
        self@
    }
}

impl Dup for ResolvedPlan {
    fn dup(&self) -> (r: Self) {
        ResolvedPlan {
            replicas: self.replicas,
            rung: self.rung.clone(),
            candidates: self.candidates.dup(),
        }
    }
}

impl Clone for ResolvedPlan {
    fn clone(&self) -> (r: Self)
        ensures
            r@ == self@,
    {
        self.dup()
    }
}

/// What a volume is asked for.
#[derive(Debug)]
pub struct CreateVolumeRequest {
    pub name: String,
    pub size_bytes: u64,
    pub pool: Option<String>,
    pub replicas: Option<u32>,
    pub rung: Option<String>,
    pub tier: Option<String>,
}

/// What a [`CreateVolumeRequest`] holds.
#[verifier::ext_equal]
pub struct CreateVolumeRequestView {
    pub name: Seq<char>,
    pub size_bytes: u64,
    pub pool: Option<Seq<char>>,
    pub replicas: Option<u32>,
    pub rung: Option<Seq<char>>,
    pub tier: Option<Seq<char>>,
}

impl View for CreateVolumeRequest {
    type V = CreateVolumeRequestView;

    open spec fn view(&self) -> CreateVolumeRequestView {
        CreateVolumeRequestView {
            name: self.name@,
            size_bytes: self.size_bytes,
            pool: self.pool.deep_view(),
            replicas: self.replicas,
            rung: self.rung.deep_view(),
            tier: self.tier.deep_view(),
        }
    }
}

impl DeepView for CreateVolumeRequest {
    type V = CreateVolumeRequestView;

    open spec fn deep_view(&self) -> CreateVolumeRequestView {
        self@
    }
}

impl Dup for CreateVolumeRequest {
    fn dup(&self) -> (r: Self) {
        CreateVolumeRequest {
            name: self.name.clone(),
            size_bytes: self.size_bytes,
            pool: self.pool.dup(),
            replicas: self.replicas,
            rung: self.rung.dup(),
            tier: self.tier.dup(),
        }
    }
}

impl Clone for CreateVolumeRequest {
    fn clone(&self) -> (r: Self)
        ensures
            r@ == self@,
    {
        self.dup()
    }
}

/// Whether a leg may be placed on the node: it is healthy, the pool draws from
/// it, and it is of the tier that was asked for.
pub open spec fn eligible(
    node: NodeView,
    pool: Option<PoolConfigView>,
    tier: Option<Seq<char>>,
) -> bool {
    &&& node.status.healthy
    &&& pool matches Some(p) ==> p.selector.matches(node.config)
    &&& tier is Some ==> node.config.tier == tier
}

/// The nodes that a leg may be placed on.
pub open spec fn candidates_among(
    nodes: Seq<NodeView>,
    pool: Option<PoolConfigView>,
    tier: Option<Seq<char>>,
) -> Seq<CandidateView>
    decreases nodes.len(),
{
    if nodes.len() == 0 {
        Seq::empty()
    } else {
        let front = candidates_among(nodes.drop_last(), pool, tier);
        if eligible(nodes.last(), pool, tier) {
            front.push(orchestrate::candidate_of(nodes.last()))
        } else {
            front
        }
    }
}

impl PlanRequestView {
    /// The pool that the request names.
    pub open spec fn pool_in(self, config: ConfigView) -> Option<PoolConfigView> {
        match self.pool {
            Some(name) => config::pool_named(config.pools, name),
            None => None,
        }
    }

    /// How many legs: as asked, or as the pool has it, or one; never none.
    pub open spec fn legs_in(self, config: ConfigView) -> u32 {
        let n = match self.replicas {
            Some(n) => n,
            None => match self.pool_in(config) {
                Some(p) => p.replicas,
                None => 1,
            },
        };
        if n == 0 {
            1
        } else {
            n
        }
    }

    /// Across which rung: as asked, or as the pool has it, or across nodes.
    pub open spec fn rung_in(self, config: ConfigView) -> Seq<char> {
        match self.rung {
            Some(r) => r,
            None => match self.pool_in(config) {
                Some(p) => p.rung,
                None => "node"@,
            },
        }
    }

    /// The request with what its pool and the defaults add to it, or why it
    /// cannot be served.
    pub open spec fn resolved(self, config: ConfigView, fed: FedStateView) -> Result<
        ResolvedPlanView,
        ApiErrorView,
    > {
        let rung = self.rung_in(config);
        if self.pool is Some && self.pool_in(config) is None {
            Err(
                ApiErrorView::of(
                    ErrorKind::NotFound,
                    "pool "@ + text::quoted_text(self.pool->0),
                ),
            )
        } else if !config.federation.rungs.contains(rung) {
            Err(
                ApiErrorView::of(
                    ErrorKind::BadRequest,
                    "rung "@ + text::quoted_text(rung) + " not in federation.rungs"@,
                ),
            )
        } else {
            Ok(
                ResolvedPlanView {
                    replicas: self.legs_in(config),
                    rung,
                    candidates: candidates_among(
                        names::in_order(fed.nodes),
                        self.pool_in(config),
                        self.tier,
                    ),
                },
            )
        }
    }
}

/// With a configuration that can be run with, a request that names one of the
/// pools and leaves the rung to it is never refused for its pool or rung.
pub proof fn pools_can_be_used(config: ConfigView, fed: FedStateView, req: PlanRequestView, i: int)
    requires
        config.fault(None) is None,
        0 <= i < config.pools.len(),
        req.pool == Some(config.pools[i].name),
        req.rung is None,
    ensures
        req.resolved(config, fed) is Ok,
{
    config::sound_config(config, None);
    config::pool_named_is_one(config.pools, config.pools[i].name);
    let p = config::pool_named(config.pools, config.pools[i].name)->0;
    let k = config.pools.index_of(p);
    assert(config.pools[k] == p);
}

impl ResolvedPlanView {
    /// The placement question that this comes down to.
    pub open spec fn question(self, config: ConfigView, size_bytes: u64) -> Question {
        Question {
            rungs: config.federation.rungs,
            rung: self.rung,
            replicas: self.replicas,
            size_bytes,
        }
    }

    /// The nodes for the legs, or that there are not enough.
    pub open spec fn placed(self, config: ConfigView, size_bytes: u64) -> Result<
        Seq<Seq<char>>,
        ApiErrorView,
    > {
        match self.question(config, size_bytes).answer(self.candidates) {
            Ok(legs) => Ok(legs),
            Err(e) => Err(ApiErrorView::of(ErrorKind::Conflict, e)),
        }
    }
}

fn find_candidates(
    nodes: &Vec<&Node>,
    pool: Option<&PoolConfig>,
    tier: &Option<String>,
) -> (r: Vec<Candidate>)
    ensures
        r.deep_view() == candidates_among(
            nodes.deep_view(),
            pool.deep_view(),
            tier.deep_view(),
        ),
{
    let ghost all = nodes.deep_view();
    let ghost p = pool.deep_view();
    let ghost t = tier.deep_view();
    let mut r: Vec<Candidate> = Vec::new();
    let mut i: usize = 0;
    assert(r.deep_view() =~= candidates_among(all.take(0), p, t));
    while i < nodes.len()
        invariant
            i <= nodes.len(),
            all == nodes.deep_view(),
            p == pool.deep_view(),
            t == tier.deep_view(),
            r.deep_view() == candidates_among(all.take(i as int), p, t),
        decreases nodes.len() - i,
    {
        let node: &Node = nodes[i];
        let ghost was = r.deep_view();
        assert(all.take(i + 1).drop_last() =~= all.take(i as int));
        assert(all.take(i + 1).last() == node@);
        let drawn: bool = match pool {
            Some(p) => p.selector.matches(&node.config),
            None => true,
        };
        let fits: bool = tier.is_none() || text::same_option(&node.config.tier, tier);
        if node.status.healthy && drawn && fits {
            r.push(orchestrate::candidate(node));
            assert(r.deep_view() =~= was.push(orchestrate::candidate_of(node@)));
        }
        i = i + 1;
    }
    assert(all.take(i as int) =~= all);
    r
}

/// A placement request with what its pool and the defaults add to it, or why
/// it cannot be served.
pub fn resolve_plan(config: &Config, fed: &FedState, req: &PlanRequest) -> (r: Result<
    ResolvedPlan,
    ApiError,
>)
    ensures
        match r {
            Ok(p) => req@.resolved(config@, fed@) == Ok::<ResolvedPlanView, ApiErrorView>(p@),
            Err(e) => req@.resolved(config@, fed@) == Err::<ResolvedPlanView, ApiErrorView>(e@),
        },
{
    let pool: Option<&PoolConfig> = match &req.pool {
        Some(name) => match config.pool(name.as_str()) {
            Some(p) => Some(p),
            None => {
                return Err(
                    ApiError::not_found(
                        text::owned("pool ").concat(text::quoted(name.as_str()).as_str()),
                    ),
                );
            },
        },
        None => None,
    };
    let asked: u32 = match req.replicas {
        Some(n) => n,
        None => match pool {
            Some(p) => p.replicas,
            None => 1,
        },
    };
    let replicas: u32 = if asked == 0 {
        1
    } else {
        asked
    };
    let rung: String = match &req.rung {
        Some(r) => r.clone(),
        None => match pool {
            Some(p) => p.rung.clone(),
            None => text::owned("node"),
        },
    };
    if !text::listed(config.federation.rungs.as_slice(), rung.as_str()) {
        return Err(
            ApiError::bad_request(
                text::owned("rung ").concat(text::quoted(rung.as_str()).as_str()).concat(
                    " not in federation.rungs",
                ),
            ),
        );
    }
    let nodes: Vec<&Node> = nodes_in(fed);
    let candidates: Vec<Candidate> = find_candidates(&nodes, pool, &req.tier);
    Ok(ResolvedPlan { replicas, rung, candidates })
}

/// The nodes for the legs, or that there are not enough.
fn place_legs(config: &Config, plan: &ResolvedPlan, size_bytes: u64) -> (r: Result<
    Vec<String>,
    ApiError,
>)
    ensures
        match r {
            Ok(legs) => plan@.placed(config@, size_bytes) == Ok::<Seq<Seq<char>>, ApiErrorView>(
                legs.deep_view(),
            ),
            Err(e) => plan@.placed(config@, size_bytes) == Err::<Seq<Seq<char>>, ApiErrorView>(e@),
        },
{
    match placement::plan(
        plan.candidates.as_slice(),
        config.federation.rungs.as_slice(),
        plan.rung.as_str(),
        plan.replicas,
        size_bytes,
    ) {
        Ok(legs) => Ok(legs),
        Err(e) => Err(ApiError::conflict(e)),
    }
}

/// What a dry run of a placement gives.
#[derive(Debug)]
pub struct DryRun {
    pub replicas: u32,
    pub rung: String,
    /// The node of each leg.
    pub legs: Vec<String>,
}

/// What a [`DryRun`] holds.
#[verifier::ext_equal]
pub struct DryRunView {
    pub replicas: u32,
    pub rung: Seq<char>,
    pub legs: Seq<Seq<char>>,
}

impl View for DryRun {
    type V = DryRunView;

    open spec fn view(&self) -> DryRunView {
        DryRunView {
            replicas: self.replicas,
            rung: self.rung@,
            legs: self.legs.deep_view(),
        }
    }
}

impl DeepView for DryRun {
    type V = DryRunView;

    open spec fn deep_view(&self) -> DryRunView {
        self@
    }
}

impl Dup for DryRun {
    fn dup(&self) -> (r: Self) {
        DryRun {
            replicas: self.replicas,
            rung: self.rung.clone(),
            legs: self.legs.dup(),
        }
    }
}

impl Clone for DryRun {
    fn clone(&self) -> (r: Self)
        ensures
            r@ == self@,
    {
        self.dup()
    }
}

/// What a dry run of a placement gives, or why it cannot be placed.
pub open spec fn dry_run(config: ConfigView, fed: FedStateView, req: PlanRequestView) -> Result<
    DryRunView,
    ApiErrorView,
> {
    match req.resolved(config, fed) {
        Ok(plan) => match plan.placed(config, req.size_bytes) {
            Ok(legs) => Ok(DryRunView { replicas: plan.replicas, rung: plan.rung, legs }),
            Err(e) => Err(e),
        },
        Err(e) => Err(e),
    }
}

/// Places a volume without creating it.
pub fn plan_dry_run(config: &Config, fed: &FedState, req: &PlanRequest) -> (r: Result<
    DryRun,
    ApiError,
>)
    ensures
        match r {
            Ok(p) => dry_run(config@, fed@, req@) == Ok::<DryRunView, ApiErrorView>(p@),
            Err(e) => dry_run(config@, fed@, req@) == Err::<DryRunView, ApiErrorView>(e@),
        },
{
    let plan: ResolvedPlan = match resolve_plan(config, fed, req) {
        Ok(p) => p,
        Err(e) => {
            return Err(e);
        },
    };
    match place_legs(config, &plan, req.size_bytes) {
        Ok(legs) => Ok(DryRun { replicas: plan.replicas, rung: plan.rung, legs }),
        Err(e) => Err(e),
    }
}

/// The creation of a volume's legs, as far as it has come.
#[derive(Debug)]
pub struct Creation {
    request: CreateVolumeRequest,
    replicas: u32,
    rung: String,
    picks: Vec<String>,
    legs: Vec<Leg>,
    failure: Option<ApiError>,
}

/// What a [`Creation`] holds.
#[verifier::ext_equal]
pub struct CreationView {
    pub request: CreateVolumeRequestView,
    pub replicas: u32,
    pub rung: Seq<char>,
    /// The node of each leg.
    pub picks: Seq<Seq<char>>,
    /// The legs that exist so far.
    pub legs: Seq<LegView>,
    /// Why a leg could not be created, if one could not.
    pub failure: Option<ApiErrorView>,
}

impl View for Creation {
    type V = CreationView;

    closed spec fn view(&self) -> CreationView {
        CreationView {
            request: self.request@,
            replicas: self.replicas,
            rung: self.rung@,
            picks: self.picks.deep_view(),
            legs: self.legs.deep_view(),
            failure: self.failure.deep_view(),
        }
    }
}

impl CreateVolumeRequestView {
    /// The placement that the volume needs.
    pub open spec fn plan(self) -> PlanRequestView {
        PlanRequestView {
            pool: self.pool,
            size_bytes: self.size_bytes,
            replicas: self.replicas,
            rung: self.rung,
            tier: self.tier,
        }
    }
}

/// A leg whose volume was just created on a node, by what its engine says.
pub open spec fn created_leg(node: Seq<char>, volume: JsonView) -> LegView {
    LegView {
        node,
        volume_id: volume.text_at("id"@),
        state: LegState::Created,
        message: None,
        master_node: engine::master_node(volume),
        export: None,
        drive_uuid: None,
        member_uuid: None,
    }
}

impl CreationView {
    /// What holds of every creation: the legs so far are on the nodes that were
    /// picked, in order, and each exists.
    pub open spec fn sound(self) -> bool {
        &&& self.picks.len() == self.replicas
        &&& self.replicas >= 1
        &&& self.legs.len() <= self.picks.len()
        &&& self.failure is Some ==> self.legs.len() < self.picks.len()
        &&& forall|i: int|
            0 <= i < self.legs.len() ==> (#[trigger] self.legs[i]).node == self.picks[i]
                && self.legs[i].state == LegState::Created
    }

    /// Whether every leg exists.
    pub open spec fn complete(self) -> bool {
        self.legs.len() == self.picks.len()
    }

    /// The creation at its start, or why the volume cannot be created.
    pub open spec fn begin(
        config: ConfigView,
        fed: FedStateView,
        req: CreateVolumeRequestView,
    ) -> Result<Self, ApiErrorView> {
        if req.name.len() == 0 || req.size_bytes == 0 {
            Err(ApiErrorView::of(ErrorKind::BadRequest, "name and size_bytes required"@))
        } else if fed.volumes.contains_key(req.name) {
            Err(
                ApiErrorView::of(
                    ErrorKind::Conflict,
                    "volume "@ + text::quoted_text(req.name) + " exists"@,
                ),
            )
        } else {
            match dry_run(config, fed, req.plan()) {
                Err(e) => Err(e),
                Ok(run) => Ok(
                    CreationView {
                        request: req,
                        replicas: run.replicas,
                        rung: run.rung,
                        picks: run.legs,
                        legs: Seq::empty(),
                        failure: None,
                    },
                ),
            }
        }
    }

    /// Whether there is still a leg to create.
    pub open spec fn pending(self) -> bool {
        !self.complete() && self.failure is None
    }

    /// The node of the next leg.
    pub open spec fn next_node(self) -> Seq<char> {
        self.picks[self.legs.len() as int]
    }

    /// The creation once the next leg's node was looked up: it fails where the
    /// node is no longer known.
    pub open spec fn sought(self, fed: FedStateView) -> Self {
        if self.pending() && !fed.nodes.contains_key(self.next_node()) {
            CreationView {
                failure: Some(
                    ApiErrorView::of(
                        ErrorKind::NotFound,
                        "node "@ + text::quoted_text(self.next_node()),
                    ),
                ),
                ..self
            }
        } else {
            self
        }
    }

    /// What to ask next: the next leg's volume, of the engine that its node has
    /// now; nothing once every leg exists or one could not be created, or where
    /// the node is not known.
    pub open spec fn errand(self, fed: FedStateView) -> Option<ErrandView> {
        if self.pending() && fed.nodes.contains_key(self.next_node()) {
            Some(
                ErrandView {
                    engine: engine_at(fed.nodes[self.next_node()]),
                    task: TaskView::CreateVolume {
                        name: self.request.name,
                        size_bytes: self.request.size_bytes,
                    },
                },
            )
        } else {
            None
        }
    }

    /// The creation after an engine's answer.
    pub open spec fn after(self, answer: Result<JsonView, Seq<char>>) -> Self {
        if self.pending() {
            match answer {
                Ok(v) => CreationView {
                    legs: self.legs.push(created_leg(self.next_node(), v)),
                    ..self
                },
                Err(e) => CreationView {
                    failure: Some(
                        ApiErrorView::of(
                            ErrorKind::Upstream,
                            "leg create failed: "@ + self.next_node() + ": "@ + e,
                        ),
                    ),
                    ..self
                },
            }
        } else {
            self
        }
    }

    /// The creation after each of these turns: the node looked up in the state
    /// of the time, and the engine's answer.
    pub open spec fn ran(self, turns: Seq<(FedStateView, Result<JsonView, Seq<char>>)>) -> Self
        decreases turns.len(),
    {
        if turns.len() == 0 {
            self
        } else {
            self.ran(turns.drop_last()).sought(turns.last().0).after(turns.last().1)
        }
    }

    /// What taking back the legs so far takes: deleting each volume that is
    /// known by its id, where its node is still known. Nobody minds if it
    /// fails.
    pub open spec fn rollback(self, fed: FedStateView) -> Seq<ChoreView> {
        rollback_of(fed, self.legs)
    }

    /// The volume as it is recorded once every leg exists.
    pub open spec fn volume(self, now: SystemTime) -> DistVolumeView {
        DistVolumeView {
            name: self.request.name,
            size_bytes: self.request.size_bytes,
            pool: self.request.pool,
            replicas: self.replicas,
            rung: self.rung,
            legs: self.legs,
            assembly: if self.legs.len() <= 1 {
                AssemblyState::SingleLeg
            } else {
                AssemblyState::PendingEngineSupport
            },
            head: None,
            array_id: None,
            created_at: now,
        }
    }

    /// What is noted once every leg exists.
    pub open spec fn notice(self) -> NoticeView {
        NoticeView {
            subject: Some(self.request.name),
            severity: Severity::Info,
            kind: "volume"@,
            message: self.request.name + ": created, "@ + text::dec(self.replicas as nat)
                + " leg(s) across rung "@ + text::quoted_text(self.rung) + " on ["@
                + text::joined(self.picks, ", "@) + "]"@,
        }
    }
}

/// Deleting the volumes of these legs, as far as they and their nodes are
/// known.
pub open spec fn rollback_of(fed: FedStateView, legs: Seq<LegView>) -> Seq<ChoreView>
    decreases legs.len(),
{
    if legs.len() == 0 {
        Seq::empty()
    } else {
        let front = rollback_of(fed, legs.drop_last());
        let leg = legs.last();
        if leg.volume_id is Some && fed.nodes.contains_key(leg.node) {
            front.push(
                ChoreView {
                    errand: ErrandView {
                        engine: engine_at(fed.nodes[leg.node]),
                        task: TaskView::DeleteVolume { volume_id: leg.volume_id->0 },
                    },
                    blame: None,
                },
            )
        } else {
            front
        }
    }
}

/// A creation starts sound, with no leg yet.
pub proof fn creation_begins_sound(
    config: ConfigView,
    fed: FedStateView,
    req: CreateVolumeRequestView,
)
    ensures
        CreationView::begin(config, fed, req) matches Ok(c) ==> c.sound() && c.legs.len() == 0,
{
}

/// A creation stays sound whichever nodes are known and whatever the engines
/// answer.
pub proof fn creation_stays_sound(
    c: CreationView,
    fed: FedStateView,
    answer: Result<JsonView, Seq<char>>,
)
    requires
        c.sound(),
    ensures
        c.sought(fed).sound(),
        c.after(answer).sound(),
{
}

/// Whatever the engines answer, what is created and where stays as it was
/// planned.
pub proof fn creation_keeps_plan(
    c: CreationView,
    turns: Seq<(FedStateView, Result<JsonView, Seq<char>>)>,
)
    requires
        c.sound(),
    ensures
        c.ran(turns).sound(),
        c.ran(turns).request == c.request,
        c.ran(turns).replicas == c.replicas,
        c.ran(turns).rung == c.rung,
        c.ran(turns).picks == c.picks,
    decreases turns.len(),
{
    if turns.len() > 0 {
        let before = c.ran(turns.drop_last());
        creation_keeps_plan(c, turns.drop_last());
        creation_stays_sound(before, turns.last().0, turns.last().1);
        creation_stays_sound(before.sought(turns.last().0), turns.last().0, turns.last().1);
    }
}

/// Every candidate is one of the nodes that a leg may be placed on.
proof fn candidate_is_eligible(
    nodes: Seq<NodeView>,
    pool: Option<PoolConfigView>,
    tier: Option<Seq<char>>,
    i: int,
) -> (j: int)
    requires
        0 <= i < candidates_among(nodes, pool, tier).len(),
    ensures
        0 <= j < nodes.len(),
        eligible(nodes[j], pool, tier),
        candidates_among(nodes, pool, tier)[i] == orchestrate::candidate_of(nodes[j]),
    decreases nodes.len(),
{
    let front = candidates_among(nodes.drop_last(), pool, tier);
    if i < front.len() {
        candidate_is_eligible(nodes.drop_last(), pool, tier, i)
    } else {
        nodes.len() - 1
    }
}

/// What is promised of a volume's legs: once it is created it has as many as
/// the request and its pool ask for, and the node of each was healthy, had room
/// for it, and is one that the pool draws from and of the tier asked for.
pub proof fn created_legs_have_room(
    config: ConfigView,
    fed: FedStateView,
    req: CreateVolumeRequestView,
    start: CreationView,
    turns: Seq<(FedStateView, Result<JsonView, Seq<char>>)>,
    now: SystemTime,
    a: int,
)
    requires
        fed.nodes.dom().finite(),
        model::keyed(fed.nodes),
        CreationView::begin(config, fed, req) == Ok::<CreationView, ApiErrorView>(start),
        start.ran(turns).complete(),
        0 <= a < start.ran(turns).volume(now).legs.len(),
    ensures
        ({
            let vol = start.ran(turns).volume(now);
            let node = fed.nodes[vol.legs[a].node];
            &&& vol.legs.len() == req.plan().legs_in(config)
            &&& vol.rung == req.plan().rung_in(config)
            &&& fed.nodes.contains_key(vol.legs[a].node)
            &&& eligible(node, req.plan().pool_in(config), req.tier)
            &&& node.status.free_bytes >= req.size_bytes
        }),
{
    creation_begins_sound(config, fed, req);
    creation_keeps_plan(start, turns);
    let plan = req.plan().resolved(config, fed)->Ok_0;
    let question = plan.question(config, req.size_bytes);
    let cs = plan.candidates;
    question.legs_have_room(cs, start.picks, a);
    let i = question.ranking(cs)[a];
    let nodes = names::in_order(fed.nodes);
    let j = candidate_is_eligible(nodes, req.plan().pool_in(config), req.tier, i);
    names::sorted_holds(fed.nodes.dom());
    let keys = names::sorted(fed.nodes.dom());
    assert(keys.to_set().contains(keys[j]));
    assert(fed.nodes.contains_key(keys[j]));
    assert(start.ran(turns).legs[a].node == start.picks[a]);
}

/// What is promised of a volume's legs: once it is created, no two of them are
/// on nodes in one failure domain at the volume's rung.
pub proof fn created_legs_are_spread(
    config: ConfigView,
    fed: FedStateView,
    req: CreateVolumeRequestView,
    start: CreationView,
    turns: Seq<(FedStateView, Result<JsonView, Seq<char>>)>,
    now: SystemTime,
    a: int,
    b: int,
)
    requires
        fed.nodes.dom().finite(),
        model::keyed(fed.nodes),
        CreationView::begin(config, fed, req) == Ok::<CreationView, ApiErrorView>(start),
        start.ran(turns).complete(),
        0 <= a < b < start.ran(turns).volume(now).legs.len(),
    ensures
        ({
            let vol = start.ran(turns).volume(now);
            let rungs = config.federation.rungs;
            placement::domain(fed.nodes[vol.legs[a].node].labels(), rungs, vol.rung)
                != placement::domain(fed.nodes[vol.legs[b].node].labels(), rungs, vol.rung)
        }),
{
    creation_begins_sound(config, fed, req);
    creation_keeps_plan(start, turns);
    let pool = req.plan().pool_in(config);
    let plan = req.plan().resolved(config, fed)->Ok_0;
    let question = plan.question(config, req.size_bytes);
    let cs = plan.candidates;
    question.legs_are_spread(cs, start.picks, a, b);
    let nodes = names::in_order(fed.nodes);
    let i = candidate_is_eligible(nodes, pool, req.tier, question.ranking(cs)[a]);
    let j = candidate_is_eligible(nodes, pool, req.tier, question.ranking(cs)[b]);
    names::sorted_holds(fed.nodes.dom());
    let keys = names::sorted(fed.nodes.dom());
    assert(keys.to_set().contains(keys[i]));
    assert(fed.nodes.contains_key(keys[i]));
    assert(keys.to_set().contains(keys[j]));
    assert(fed.nodes.contains_key(keys[j]));
    assert(start.ran(turns).legs[a].node == start.picks[a]);
    assert(start.ran(turns).legs[b].node == start.picks[b]);
}

/// Deleting a volume takes back what creating it recorded.
pub proof fn delete_undoes_create(
    config: ConfigView,
    fed: FedStateView,
    req: CreateVolumeRequestView,
    start: CreationView,
    turns: Seq<(FedStateView, Result<JsonView, Seq<char>>)>,
    now: SystemTime,
)
    requires
        CreationView::begin(config, fed, req) == Ok::<CreationView, ApiErrorView>(start),
    ensures
        start.ran(turns).request.name == req.name,
        fed.volumes.insert(
            start.ran(turns).request.name,
            start.ran(turns).volume(now),
        ).remove(req.name) == fed.volumes,
{
    creation_begins_sound(config, fed, req);
    creation_keeps_plan(start, turns);
    assert(fed.volumes.insert(req.name, start.ran(turns).volume(now)).remove(req.name)
        =~= fed.volumes);
}

/// No leg that was created is forgotten: the volume of every leg with an id,
/// on a node that is still known, is deleted where the creation is rolled back.
pub proof fn rollback_covers_every_leg(fed: FedStateView, legs: Seq<LegView>, i: int)
    requires
        0 <= i < legs.len(),
        legs[i].volume_id is Some,
        fed.nodes.contains_key(legs[i].node),
    ensures
        exists|k: int|
            0 <= k < rollback_of(fed, legs).len() && (#[trigger] rollback_of(fed, legs)[k]).errand
                == (ErrandView {
                engine: engine_at(fed.nodes[legs[i].node]),
                task: TaskView::DeleteVolume { volume_id: legs[i].volume_id->0 },
            }),
    decreases legs.len(),
{
    let front = rollback_of(fed, legs.drop_last());
    let all = rollback_of(fed, legs);
    if i < legs.len() - 1 {
        rollback_covers_every_leg(fed, legs.drop_last(), i);
        let k = choose|k: int|
            0 <= k < front.len() && (#[trigger] front[k]).errand == (ErrandView {
                engine: engine_at(fed.nodes[legs[i].node]),
                task: TaskView::DeleteVolume { volume_id: legs[i].volume_id->0 },
            });
        assert(all[k] == front[k]);
    } else {
        assert(all[front.len() as int] == all.last());
    }
}

impl Creation {
    #[verifier::type_invariant]
    closed spec fn holds(self) -> bool {
        self@.sound()
    }

    /// The creation of a volume at its start: where its legs go, or why it
    /// cannot be created.
    pub fn begin(config: &Config, fed: &FedState, req: CreateVolumeRequest) -> (r: Result<
        Creation,
        ApiError,
    >)
        ensures
            match r {
                Ok(c) => CreationView::begin(config@, fed@, req@) == Ok::<
                    CreationView,
                    ApiErrorView,
                >(c@),
                Err(e) => CreationView::begin(config@, fed@, req@) == Err::<
                    CreationView,
                    ApiErrorView,
                >(e@),
            },
    {
        proof {
            creation_begins_sound(config@, fed@, req@);
            reveal_strlit("");
            if req@.name.len() == 0 {
                assert(req@.name =~= ""@);
            }
        }
        if text::same(req.name.as_str(), "") || req.size_bytes == 0 {
            return Err(ApiError::bad_request(text::owned("name and size_bytes required")));
        }
        if fed.volumes.contains_key(req.name.as_str()) {
            return Err(
                ApiError::conflict(
                    text::owned("volume ").concat(text::quoted(req.name.as_str()).as_str()).concat(
                        " exists",
                    ),
                ),
            );
        }
        let plan = PlanRequest {
            pool: req.pool.dup(),
            size_bytes: req.size_bytes,
            replicas: req.replicas,
            rung: req.rung.dup(),
            tier: req.tier.dup(),
        };
        let run: DryRun = match plan_dry_run(config, fed, &plan) {
            Ok(p) => p,
            Err(e) => {
                return Err(e);
            },
        };
        let legs: Vec<Leg> = Vec::new();
        assert(legs.deep_view() =~= Seq::<LegView>::empty());
        Ok(
            Creation {
                request: req,
                replicas: run.replicas,
                rung: run.rung,
                picks: run.legs,
                legs,
                failure: None,
            },
        )
    }

    /// Whether there is still a leg to create.
    fn is_pending(&self) -> (r: bool)
        ensures
            r == self@.pending(),
            r ==> self.legs.len() < self.picks.len(),
    {
        proof {
            use_type_invariant(self);
        }
        self.legs.len() != self.picks.len() && self.failure.is_none()
    }

    fn set(&mut self, legs: Vec<Leg>, failure: Option<ApiError>)
        requires
            (CreationView {
                legs: legs.deep_view(),
                failure: failure.deep_view(),
                ..old(self)@
            }).sound(),
        ensures
            final(self)@ == (CreationView {
                legs: legs.deep_view(),
                failure: failure.deep_view(),
                ..old(self)@
            }),
    {
        let next = Creation {
            request: self.request.dup(),
            replicas: self.replicas,
            rung: self.rung.clone(),
            picks: self.picks.dup(),
            legs,
            failure,
        };
        *self = next;
    }

    /// What to ask next: the next leg's volume; nothing once every leg exists
    /// or one could not be created. The leg's node is looked up at its turn:
    /// where it is no longer known, its leg cannot be created.
    pub fn next(&mut self, fed: &FedState) -> (r: Option<Errand>)
        ensures
            final(self)@ == old(self)@.sought(fed@),
            r.deep_view() == old(self)@.errand(fed@),
            r is None <==> !final(self)@.pending(),
    {
        proof {
            use_type_invariant(&*self);
            creation_stays_sound(self@, fed@, Err(Seq::empty()));
        }
        if !self.is_pending() {
            return None;
        }
        let node: String = self.picks[self.legs.len()].clone();
        match fed.nodes.get(node.as_str()) {
            Some(n) => Some(
                Errand {
                    engine: engine_for(n),
                    task: Task::CreateVolume {
                        name: self.request.name.clone(),
                        size_bytes: self.request.size_bytes,
                    },
                },
            ),
            None => {
                let legs: Vec<Leg> = self.legs.dup();
                self.set(
                    legs,
                    Some(
                        ApiError::not_found(
                            text::owned("node ").concat(text::quoted(node.as_str()).as_str()),
                        ),
                    ),
                );
                None
            },
        }
    }

    /// Takes in an engine's answer: the leg exists, or why it does not.
    pub fn step(&mut self, answer: Result<Json, String>)
        ensures
            final(self)@ == old(self)@.after(
                match answer {
                    Ok(v) => Ok(v@),
                    Err(e) => Err(e@),
                },
            ),
    {
        proof {
            use_type_invariant(&*self);
        }
        let ghost before = self@;
        if !self.is_pending() {
            return;
        }
        let node: String = self.picks[self.legs.len()].clone();
        let mut legs: Vec<Leg> = self.legs.dup();
        match answer {
            Ok(v) => {
                let volume_id: Option<String> = match v.text_at("id") {
                    Some(id) => Some(id.clone()),
                    None => None,
                };
                let leg = Leg {
                    node,
                    volume_id,
                    state: LegState::Created,
                    message: None,
                    master_node: Engine::master_node_of(&v),
                    export: None,
                    drive_uuid: None,
                    member_uuid: None,
                };
                let ghost new = leg@;
                legs.push(leg);
                assert(legs.deep_view() =~= before.legs.push(new));
                self.set(legs, None);
            },
            Err(e) => {
                self.set(
                    legs,
                    Some(
                        ApiError::upstream(
                            text::owned("leg create failed: ").concat(node.as_str()).concat(
                                ": ",
                            ).concat(e.as_str()),
                        ),
                    ),
                );
            },
        }
    }

    /// Why the volume could not be created, and what taking back the legs that
    /// were takes; nothing where no leg failed.
    pub fn failed(&self, fed: &FedState) -> (r: Option<(ApiError, Vec<Chore>)>)
        ensures
            r is Some <==> self@.failure is Some,
            r matches Some(x) ==> Some(x.0@) == self@.failure && x.1.deep_view() == self@.rollback(
                fed@,
            ),
    {
        match &self.failure {
            Some(why) => {
                let ghost legs = self@.legs;
                let mut out: Vec<Chore> = Vec::new();
                let mut i: usize = 0;
                assert(out.deep_view() =~= rollback_of(fed@, legs.take(0)));
                while i < self.legs.len()
                    invariant
                        i <= self.legs.len(),
                        legs == self.legs.deep_view(),
                        out.deep_view() == rollback_of(fed@, legs.take(i as int)),
                    decreases self.legs.len() - i,
                {
                    let leg: &Leg = &self.legs[i];
                    let ghost was = out.deep_view();
                    assert(legs.take(i + 1).drop_last() =~= legs.take(i as int));
                    assert(legs.take(i + 1).last() == leg@);
                    if let Some(id) = &leg.volume_id {
                        if let Some(n) = fed.nodes.get(leg.node.as_str()) {
                            out.push(
                                Chore {
                                    errand: Errand {
                                        engine: engine_for(n),
                                        task: Task::DeleteVolume { volume_id: id.clone() },
                                    },
                                    blame: None,
                                },
                            );
                            assert(out.deep_view() =~= was.push(out.deep_view().last()));
                        }
                    }
                    i = i + 1;
                }
                assert(legs.take(i as int) =~= legs);
                Some((why.dup(), out))
            },
            None => None,
        }
    }

    /// Records the volume once every leg exists. Gives back what is to be
    /// noted, and whether its legs are to be assembled.
    pub fn finish(&self, fed: &mut FedState, now: SystemTime) -> (r: (Notice, bool))
        requires
            self@.complete(),
            old(fed)@.revision < u64::MAX,
        ensures
            final(fed)@ == (FedStateView {
                revision: (old(fed)@.revision + 1) as u64,
                volumes: old(fed)@.volumes.insert(self@.request.name, self@.volume(now)),
                ..old(fed)@
            }),
            r.0@ == self@.notice(),
            r.1 == (self@.legs.len() >= 2),
    {
        let vol = DistVolume {
            name: self.request.name.clone(),
            size_bytes: self.request.size_bytes,
            pool: self.request.pool.dup(),
            replicas: self.replicas,
            rung: self.rung.clone(),
            legs: self.legs.dup(),
            assembly: if self.legs.len() <= 1 {
                AssemblyState::SingleLeg
            } else {
                AssemblyState::PendingEngineSupport
            },
            head: None,
            array_id: None,
            created_at: now,
        };
        fed.volumes.insert(self.request.name.clone(), vol);
        fed.revision = fed.revision + 1;
        let message: String = self.request.name.clone().concat(": created, ").concat(
            text::decimal(self.replicas as u64).as_str(),
        ).concat(" leg(s) across rung ").concat(text::quoted(self.rung.as_str()).as_str()).concat(
            " on [",
        ).concat(text::join(&self.picks, ", ").as_str()).concat("]");
        (
            events::notice(self.request.name.as_str(), Severity::Info, "volume", message),
            self.legs.len() >= 2,
        )
    }
}

/// What is noted where a new volume's legs could not be assembled. The legs are
/// kept.
pub fn assembly_failed(name: &str, why: &str) -> (r: Notice)
    ensures
        r@ == (NoticeView {
            subject: Some(name@),
            severity: Severity::Error,
            kind: "assemble"@,
            message: name@ + ": assembly failed: "@ + why@,
        }),
{
    let message: String = text::owned(name).concat(": assembly failed: ").concat(why);
    events::notice(name, Severity::Error, "assemble", message)
}

/// One volume.
pub fn get_volume<'a>(fed: &'a FedState, name: &str) -> (r: Result<&'a DistVolume, ApiError>)
    ensures
        r is Ok <==> fed@.volumes.contains_key(name@),
        r matches Ok(v) ==> v@ == fed@.volumes[name@],
        r matches Err(e) ==> e@ == ApiErrorView::of(
            ErrorKind::NotFound,
            "volume "@ + text::quoted_text(name@),
        ),
{
    match fed.volumes.get(name) {
        Some(v) => Ok(v),
        None => Err(
            ApiError::not_found(text::owned("volume ").concat(text::quoted(name).as_str())),
        ),
    }
}

/// What one node's engine holds.
pub fn node_inventory<'a>(all: &'a NameMap<NodeInventory>, name: &str) -> (r: Result<
    &'a NodeInventory,
    ApiError,
>)
    ensures
        r is Ok <==> all@.contains_key(name@),
        r matches Ok(i) ==> i@ == all@[name@],
        r matches Err(e) ==> e@ == ApiErrorView::of(
            ErrorKind::NotFound,
            "node "@ + text::quoted_text(name@),
        ),
{
    match all.get(name) {
        Some(i) => Ok(i),
        None => Err(ApiError::not_found(text::owned("node ").concat(text::quoted(name).as_str()))),
    }
}

/// What is noted of what went wrong when an assembly was torn down; nothing
/// where nothing did.
pub fn teardown_notice(name: &str, problems: &Vec<String>) -> (r: Option<Notice>)
    ensures
        r is Some <==> problems.deep_view().len() > 0,
        r matches Some(n) ==> n@ == (NoticeView {
            subject: Some(name@),
            severity: Severity::Warning,
            kind: "volume"@,
            message: name@ + ": teardown issues: "@ + text::joined(problems.deep_view(), "; "@),
        }),
{
    if problems.len() == 0 {
        None
    } else {
        let message: String = text::owned(name).concat(": teardown issues: ").concat(
            text::join(problems, "; ").as_str(),
        );
        Some(events::notice(name, Severity::Warning, "volume", message))
    }
}

/// The deletion of one leg's volume.
#[derive(Debug)]
pub struct LegDeletion {
    pub node: String,
    /// What to ask; nothing where the node is no longer known.
    pub errand: Option<Errand>,
}

/// What a [`LegDeletion`] is.
pub struct LegDeletionView {
    pub node: Seq<char>,
    pub errand: Option<ErrandView>,
}

impl View for LegDeletion {
    type V = LegDeletionView;

    open spec fn view(&self) -> LegDeletionView {
        LegDeletionView { node: self.node@, errand: self.errand.deep_view() }
    }
}

impl DeepView for LegDeletion {
    type V = LegDeletionView;

    open spec fn deep_view(&self) -> LegDeletionView {
        self@
    }
}

/// The deletion of each leg's volume, as far as one is known.
pub open spec fn leg_deletions(fed: FedStateView, legs: Seq<LegView>) -> Seq<LegDeletionView>
    decreases legs.len(),
{
    if legs.len() == 0 {
        Seq::empty()
    } else {
        let front = leg_deletions(fed, legs.drop_last());
        let leg = legs.last();
        match leg.volume_id {
            Some(volume_id) => front.push(
                LegDeletionView {
                    node: leg.node,
                    errand: if fed.nodes.contains_key(leg.node) {
                        Some(
                            ErrandView {
                                engine: engine_at(fed.nodes[leg.node]),
                                task: TaskView::DeleteVolume { volume_id },
                            },
                        )
                    } else {
                        None
                    },
                },
            ),
            None => front,
        }
    }
}

/// The deletion of each leg's volume, as far as one is known.
pub fn delete_legs(fed: &FedState, vol: &DistVolume) -> (r: Vec<LegDeletion>)
    ensures
        r.deep_view() == leg_deletions(fed@, vol@.legs),
{
    let ghost legs = vol@.legs;
    let mut out: Vec<LegDeletion> = Vec::new();
    let mut i: usize = 0;
    assert(out.deep_view() =~= leg_deletions(fed@, legs.take(0)));
    while i < vol.legs.len()
        invariant
            i <= vol.legs.len(),
            legs == vol@.legs,
            out.deep_view() == leg_deletions(fed@, legs.take(i as int)),
        decreases vol.legs.len() - i,
    {
        let leg: &Leg = &vol.legs[i];
        let ghost was = out.deep_view();
        assert(legs.take(i + 1).drop_last() =~= legs.take(i as int));
        assert(legs.take(i + 1).last() == leg@);
        if let Some(id) = &leg.volume_id {
            let errand: Option<Errand> = match fed.nodes.get(leg.node.as_str()) {
                Some(n) => Some(
                    Errand {
                        engine: engine_for(n),
                        task: Task::DeleteVolume { volume_id: id.clone() },
                    },
                ),
                None => None,
            };
            out.push(LegDeletion { node: leg.node.clone(), errand });
            assert(out.deep_view() =~= was.push(out.deep_view().last()));
        }
        i = i + 1;
    }
    assert(legs.take(i as int) =~= legs);
    out
}

/// What is reported of deletions, each with why it failed if it did.
pub open spec fn deletion_errors(
    deletions: Seq<LegDeletionView>,
    failures: Seq<Option<Seq<char>>>,
) -> Seq<Seq<char>>
    decreases deletions.len(),
{
    if deletions.len() == 0 {
        Seq::empty()
    } else {
        let front = deletion_errors(deletions.drop_last(), failures.drop_last());
        let d = deletions.last();
        match (d.errand, failures.last()) {
            (None, _) => front.push(d.node + ": node no longer known"@),
            (Some(_), Some(e)) => front.push(d.node + ": "@ + e),
            (Some(_), None) => front,
        }
    }
}

/// What is reported of deletions, each with why it failed if it did.
pub fn undeleted(deletions: &Vec<LegDeletion>, failures: &Vec<Option<String>>) -> (r: Vec<String>)
    requires
        deletions.len() == failures.len(),
    ensures
        r.deep_view() == deletion_errors(deletions.deep_view(), failures.deep_view()),
{
    let ghost ds = deletions.deep_view();
    let ghost fs = failures.deep_view();
    let mut r: Vec<String> = Vec::new();
    let mut i: usize = 0;
    assert(r.deep_view() =~= deletion_errors(ds.take(0), fs.take(0)));
    while i < deletions.len()
        invariant
            i <= deletions.len(),
            deletions.len() == failures.len(),
            ds == deletions.deep_view(),
            fs == failures.deep_view(),
            r.deep_view() == deletion_errors(ds.take(i as int), fs.take(i as int)),
        decreases deletions.len() - i,
    {
        let ghost was = r.deep_view();
        assert(ds.take(i + 1).drop_last() =~= ds.take(i as int));
        assert(ds.take(i + 1).last() == deletions[i as int]@);
        assert(fs.take(i + 1).drop_last() =~= fs.take(i as int));
        assert(fs.take(i + 1).last() == failures[i as int].deep_view());
        let node: &String = &deletions[i].node;
        match (&deletions[i].errand, &failures[i]) {
            (None, _) => {
                r.push(node.clone().concat(": node no longer known"));
                assert(r.deep_view() =~= was.push(node@ + ": node no longer known"@));
            },
            (Some(_), Some(e)) => {
                r.push(node.clone().concat(": ").concat(e.as_str()));
                assert(r.deep_view() =~= was.push(node@ + ": "@ + e@));
            },
            (Some(_), None) => {},
        }
        i = i + 1;
    }
    assert(ds.take(i as int) =~= ds);
    assert(fs.take(i as int) =~= fs);
    r
}

/// A volume is forgotten only if every leg with a volume was deleted: nothing is
/// reported exactly where each node was known and no deletion failed.
pub proof fn nothing_reported_means_deleted(
    deletions: Seq<LegDeletionView>,
    failures: Seq<Option<Seq<char>>>,
)
    requires
        deletions.len() == failures.len(),
    ensures
        deletion_errors(deletions, failures).len() == 0 <==> forall|i: int|
            0 <= i < deletions.len() ==> (#[trigger] deletions[i]).errand is Some && failures[i]
                is None,
    decreases deletions.len(),
{
    if deletions.len() > 0 {
        let ds = deletions.drop_last();
        let fs = failures.drop_last();
        nothing_reported_means_deleted(ds, fs);
        assert(forall|i: int|
            0 <= i < ds.len() ==> #[trigger] deletions[i] == ds[i] && failures[i] == fs[i]);
        assert(deletions[deletions.len() - 1] == deletions.last());
        if deletion_errors(ds, fs).len() > 0 {
            let i = choose|i: int|
                0 <= i < ds.len() && !((#[trigger] ds[i]).errand is Some && fs[i] is None);
            assert(deletions[i] == ds[i]);
        }
    }
}

/// Every leg with a volume is deleted with its volume, where its node is known.
pub proof fn deletions_cover_every_leg(fed: FedStateView, legs: Seq<LegView>, i: int)
    requires
        0 <= i < legs.len(),
        legs[i].volume_id is Some,
    ensures
        exists|k: int|
            0 <= k < leg_deletions(fed, legs).len() && (#[trigger] leg_deletions(fed, legs)[k])
                == (LegDeletionView {
                node: legs[i].node,
                errand: if fed.nodes.contains_key(legs[i].node) {
                    Some(
                        ErrandView {
                            engine: engine_at(fed.nodes[legs[i].node]),
                            task: TaskView::DeleteVolume { volume_id: legs[i].volume_id->0 },
                        },
                    )
                } else {
                    None
                },
            }),
    decreases legs.len(),
{
    let front = leg_deletions(fed, legs.drop_last());
    let all = leg_deletions(fed, legs);
    if i < legs.len() - 1 {
        deletions_cover_every_leg(fed, legs.drop_last(), i);
        let want = LegDeletionView {
            node: legs[i].node,
            errand: if fed.nodes.contains_key(legs[i].node) {
                Some(
                    ErrandView {
                        engine: engine_at(fed.nodes[legs[i].node]),
                        task: TaskView::DeleteVolume { volume_id: legs[i].volume_id->0 },
                    },
                )
            } else {
                None
            },
        };
        let k = choose|k: int| 0 <= k < front.len() && #[trigger] front[k] == want;
        assert(all[k] == front[k]);
    } else {
        assert(all[front.len() as int] == all.last());
    }
}

/// Forgets a volume whose legs are deleted. Where any leg is not, the record is
/// kept as it is.
pub fn finish_delete(
    fed: &mut FedState,
    vol: &DistVolume,
    name: &str,
    errors: &Vec<String>,
) -> (r: Result<Notice, ApiError>)
    requires
        errors.deep_view().len() == 0 ==> old(fed)@.revision < u64::MAX,
    ensures
        r is Ok <==> errors.deep_view().len() == 0,
        r matches Ok(n) ==> n@ == (NoticeView {
            subject: Some(name@),
            severity: Severity::Info,
            kind: "volume"@,
            message: name@ + ": deleted ("@ + text::dec(vol@.legs.len()) + " legs)"@,
        }) && final(fed)@ == (FedStateView {
            revision: (old(fed)@.revision + 1) as u64,
            volumes: old(fed)@.volumes.remove(name@),
            ..old(fed)@
        }),
        r matches Err(e) ==> e@ == ApiErrorView::of(
            ErrorKind::Upstream,
            "legs not deleted: "@ + text::joined(errors.deep_view(), "; "@)
                + " — volume record kept"@,
        ) && final(fed)@ == old(fed)@,
{
    if errors.len() > 0 {
        return Err(
            ApiError::upstream(
                text::owned("legs not deleted: ").concat(text::join(errors, "; ").as_str()).concat(
                    " — volume record kept",
                ),
            ),
        );
    }
    let _ = fed.volumes.remove(name);
    fed.revision = fed.revision + 1;
    let message: String = text::owned(name).concat(": deleted (").concat(
        text::decimal(vol.legs.len() as u64).as_str(),
    ).concat(" legs)");
    Ok(events::notice(name, Severity::Info, "volume", message))
}

/// The node as a heartbeat leaves it: healthy, with its volume count. The
/// address it announces is taken only of a node that registered itself.
pub open spec fn announced_node(
    known: Map<Seq<char>, NodeView>,
    hostname: Seq<char>,
    url: Seq<char>,
    volumes: u64,
    now: SystemTime,
) -> NodeView {
    let node = if known.contains_key(hostname) {
        known[hostname]
    } else {
        NodeView {
            config: NodeConfigView {
                name: hostname,
                engine_url: url,
                api_token: None,
                labels: Map::empty(),
                tier: None,
            },
            status: NodeStatusView::fresh(NodeSource::Registered),
        }
    };
    NodeView {
        config: if node.status.source == NodeSource::Registered {
            NodeConfigView { engine_url: url, ..node.config }
        } else {
            node.config
        },
        status: NodeStatusView {
            volumes,
            last_ok: Some(now),
            healthy: true,
            consecutive_failures: 0,
            ..node.status
        },
    }
}

/// Whether a heartbeat changes what the peers are told: it is the first one of a
/// node, or a node that registered itself has another address now.
pub open spec fn changes_intent(
    known: Map<Seq<char>, NodeView>,
    hostname: Seq<char>,
    url: Seq<char>,
) -> bool {
    ||| !known.contains_key(hostname)
    ||| known[hostname].status.source == NodeSource::Registered && known[hostname].config.engine_url
        != url
}

/// Whether a heartbeat from `node_addr` changes what the peers are told.
pub fn announces_change(fed: &FedState, node_addr: &str, hostname: &str) -> (r: bool)
    ensures
        r == changes_intent(fed@.nodes, hostname@, engine_url(node_addr@)),
{
    match fed.nodes.get(hostname) {
        Some(n) => n.status.source == NodeSource::Registered && !text::same(
            n.config.engine_url.as_str(),
            engine_url_from(node_addr).as_str(),
        ),
        None => true,
    }
}

/// Takes in an engine's registration heartbeat, with how many volumes it
/// announces. The first one of a node adds it to the registry: then there is
/// something to note. Where what the peers are told changes, the revision is
/// bumped, and the second result says so.
pub fn register_node(
    fed: &mut FedState,
    node_addr: &str,
    hostname: &str,
    volumes: u64,
    now: SystemTime,
) -> (r: (Option<Notice>, bool))
    requires
        changes_intent(old(fed)@.nodes, hostname@, engine_url(node_addr@)) ==> old(fed)@.revision
            < u64::MAX,
    ensures
        r.1 == changes_intent(old(fed)@.nodes, hostname@, engine_url(node_addr@)),
        r.0 is Some <==> !old(fed)@.nodes.contains_key(hostname@),
        r.0 matches Some(n) ==> n@ == (NoticeView {
            subject: Some(hostname@),
            severity: Severity::Info,
            kind: "register"@,
            message: hostname@ + ": self-registered from "@ + node_addr@,
        }),
        final(fed)@ == (FedStateView {
            revision: if changes_intent(old(fed)@.nodes, hostname@, engine_url(node_addr@)) {
                (old(fed)@.revision + 1) as u64
            } else {
                old(fed)@.revision
            },
            nodes: old(fed)@.nodes.insert(
                hostname@,
                announced_node(
                    old(fed)@.nodes,
                    hostname@,
                    engine_url(node_addr@),
                    volumes,
                    now,
                ),
            ),
            ..old(fed)@
        }),
{
    let changed: bool = announces_change(fed, node_addr, hostname);
    let url: String = engine_url_from(node_addr);
    let known: Option<Node> = match fed.nodes.get(hostname) {
        Some(n) => Some(n.dup()),
        None => None,
    };
    let is_new: bool = known.is_none();
    let mut node: Node = match known {
        Some(n) => n,
        None => Node {
            config: NodeConfig {
                name: text::owned(hostname),
                engine_url: url.clone(),
                api_token: None,
                labels: NameMap::new(),
                tier: None,
            },
            status: NodeStatus::new(NodeSource::Registered),
        },
    };
    if node.status.source == NodeSource::Registered {
        node.config.engine_url = url;
    }
    node.status.volumes = volumes;
    node.status.last_ok = Some(now);
    node.status.healthy = true;
    node.status.consecutive_failures = 0;
    fed.nodes.insert(text::owned(hostname), node);
    if changed {
        fed.revision = fed.revision + 1;
    }
    let notice: Option<Notice> = if is_new {
        let message: String = text::owned(hostname).concat(": self-registered from ").concat(
            node_addr,
        );
        Some(events::notice(hostname, Severity::Info, "register", message))
    } else {
        None
    };
    (notice, changed)
}

/// A heartbeat never takes over a node that is configured here or was adopted
/// here: such a node keeps its configuration and where it came from.
pub proof fn heartbeat_respects_config(
    known: Map<Seq<char>, NodeView>,
    hostname: Seq<char>,
    url: Seq<char>,
    volumes: u64,
    now: SystemTime,
)
    requires
        known.contains_key(hostname),
    ensures
        announced_node(known, hostname, url, volumes, now).status.source
            == known[hostname].status.source,
        known[hostname].status.source != NodeSource::Registered ==> announced_node(
            known,
            hostname,
            url,
            volumes,
            now,
        ).config == known[hostname].config,
{
}

/// The node as a deregistration leaves it.
pub open spec fn quiet_node(node: NodeView, url: Seq<char>) -> NodeView {
    if node.config.engine_url == url {
        NodeView { status: NodeStatusView { healthy: false, ..node.status }, ..node }
    } else {
        node
    }
}

/// The name of the last of these nodes whose engine is at the URL.
pub open spec fn last_at(nodes: Seq<NodeView>, url: Seq<char>) -> Option<Seq<char>>
    decreases nodes.len(),
{
    if nodes.len() == 0 {
        None
    } else if nodes.last().config.engine_url == url {
        Some(nodes.last().config.name)
    } else {
        last_at(nodes.drop_last(), url)
    }
}

/// Takes in an engine's word that it is shutting down: every node whose engine
/// is at that address is unhealthy until it answers again.
pub fn deregister_node(fed: &mut FedState, node_addr: &str) -> (r: Option<Notice>)
    ensures
        final(fed)@ == (FedStateView {
            nodes: Map::new(
                |k: Seq<char>| old(fed)@.nodes.contains_key(k),
                |k: Seq<char>| quiet_node(old(fed)@.nodes[k], engine_url(node_addr@)),
            ),
            ..old(fed)@
        }),
        match last_at(names::in_order(old(fed)@.nodes), engine_url(node_addr@)) {
            Some(name) => r matches Some(n) && n@ == (NoticeView {
                subject: Some(name),
                severity: Severity::Warning,
                kind: "register"@,
                message: name + ": deregistered (clean shutdown)"@,
            }),
            None => r is None,
        },
{
    let url: String = engine_url_from(node_addr);
    let ghost before = fed@.nodes;
    let ghost keys = names::sorted(before.dom());
    let ghost all = names::in_order(before);
    let ghost u = engine_url(node_addr@);
    let n: usize = fed.nodes.len();
    let mut name: Option<String> = None;
    let mut out: NameMap<Node> = NameMap::new();
    let mut i: usize = 0;
    while i < n
        invariant
            i <= n,
            n == keys.len(),
            keys == fed.nodes.keys(),
            names::ascending(keys),
            keys.to_set() == before.dom(),
            before == fed@.nodes,
            all == names::in_order(before),
            u == url@,
            name.deep_view() == last_at(all.take(i as int), u),
            forall|k: Seq<char>| #[trigger]
                out@.contains_key(k) ==> before.contains_key(k) && out@[k] == quiet_node(
                    before[k],
                    u,
                ),
            forall|j: int| 0 <= j < i ==> out@.contains_key(#[trigger] keys[j]),
        decreases n - i,
    {
        let key: &String = fed.nodes.key_at(i);
        let mut node: Node = fed.nodes.value_at(i).dup();
        assert(all.take(i + 1).drop_last() =~= all.take(i as int));
        assert(all.take(i + 1).last() == node@);
        assert(before.contains_key(key@));
        if text::same(node.config.engine_url.as_str(), url.as_str()) {
            node.status.healthy = false;
            name = Some(node.config.name.clone());
        }
        out.insert(key.clone(), node);
        i = i + 1;
    }
    proof {
        assert(all.take(i as int) =~= all);
        assert forall|k: Seq<char>| before.contains_key(k) implies out@.contains_key(k) by {
            assert(keys.to_set().contains(k));
            let j = keys.index_of(k);
            assert(out@.contains_key(keys[j]));
        }
        assert(out@ =~= Map::new(
            |k: Seq<char>| before.contains_key(k),
            |k: Seq<char>| quiet_node(before[k], u),
        ));
    }
    fed.nodes = out;
    match name {
        Some(name) => {
            let message: String = name.clone().concat(": deregistered (clean shutdown)");
            Some(events::notice(name.as_str(), Severity::Warning, "register", message))
        },
        None => None,
    }
}

/// The number of the last event, and the events after the one with the number
/// `since`.
pub fn list_events(log: &EventLog, since: u64) -> (r: (u64, Vec<Event>))
    ensures
        r.0 == log@.next_seq - 1,
        log@.sound(),
        r.1.deep_view() == events::after(log@.ring, since),
{
    (log.latest_seq(), log.since(since))
}

/// One figure on the dashboard card.
#[derive(Debug)]
pub struct CardMetric {
    pub label: String,
    pub value: String,
    pub tone: Option<String>,
}

/// What a [`CardMetric`] holds.
#[verifier::ext_equal]
pub struct CardMetricView {
    pub label: Seq<char>,
    pub value: Seq<char>,
    pub tone: Option<Seq<char>>,
}

impl View for CardMetric {
    type V = CardMetricView;

    open spec fn view(&self) -> CardMetricView {
        CardMetricView {
            label: self.label@,
            value: self.value@,
            tone: self.tone.deep_view(),
        }
    }
}

impl DeepView for CardMetric {
    type V = CardMetricView;

    open spec fn deep_view(&self) -> CardMetricView {
        self@
    }
}

impl Dup for CardMetric {
    fn dup(&self) -> (r: Self) {
        CardMetric {
            label: self.label.clone(),
            value: self.value.clone(),
            tone: self.tone.dup(),
        }
    }
}

impl Clone for CardMetric {
    fn clone(&self) -> (r: Self)
        ensures
            r@ == self@,
    {
        self.dup()
    }
}

/// The dashboard card.
#[derive(Debug)]
pub struct Summary {
    pub health: String,
    pub detail: String,
    pub metrics: Vec<CardMetric>,
}

/// What a [`Summary`] holds.
#[verifier::ext_equal]
pub struct SummaryView {
    pub health: Seq<char>,
    pub detail: Seq<char>,
    pub metrics: Seq<CardMetricView>,
}

impl View for Summary {
    type V = SummaryView;

    open spec fn view(&self) -> SummaryView {
        SummaryView {
            health: self.health@,
            detail: self.detail@,
            metrics: self.metrics.deep_view(),
        }
    }
}

impl DeepView for Summary {
    type V = SummaryView;

    open spec fn deep_view(&self) -> SummaryView {
        self@
    }
}

impl Dup for Summary {
    fn dup(&self) -> (r: Self) {
        Summary {
            health: self.health.clone(),
            detail: self.detail.clone(),
            metrics: self.metrics.dup(),
        }
    }
}

impl Clone for Summary {
    fn clone(&self) -> (r: Self)
        ensures
            r@ == self@,
    {
        self.dup()
    }
}

/// How many of the volumes are waiting to be assembled.
pub open spec fn pending_among(volumes: Seq<DistVolumeView>) -> nat
    decreases volumes.len(),
{
    if volumes.len() == 0 {
        0
    } else {
        pending_among(volumes.drop_last()) + if volumes.last().assembly
            == AssemblyState::PendingEngineSupport {
            1nat
        } else {
            0
        }
    }
}

/// The health of the whole, by how many of its nodes are healthy.
pub open spec fn overall(healthy: nat, total: nat) -> Seq<char> {
    if total == 0 {
        "idle"@
    } else if healthy < total {
        if healthy == 0 {
            "error"@
        } else {
            "warn"@
        }
    } else {
        "ok"@
    }
}

/// Whether what the card shows can be counted.
pub open spec fn summary_fits(fed: FedStateView) -> bool {
    let nodes = names::in_order(fed.nodes);
    healthy_sum(nodes, free_of()) <= u64::MAX && healthy_sum(nodes, total_of()) <= u64::MAX
}

/// The dashboard card.
pub open spec fn card(fed: FedStateView) -> SummaryView {
    let nodes = names::in_order(fed.nodes);
    let healthy = healthy_among(nodes);
    let ratio = text::dec(healthy) + "/"@ + text::dec(nodes.len());
    let volumes = text::dec(names::in_order(fed.volumes).len());
    let free = human_text(healthy_sum(nodes, free_of()) as u64);
    SummaryView {
        health: overall(healthy, nodes.len()),
        detail: ratio + " nodes, "@ + volumes + " volumes ("@ + text::dec(
            pending_among(names::in_order(fed.volumes)),
        ) + " pending assembly), "@ + free + " free"@,
        metrics: seq![
            CardMetricView {
                label: "Nodes"@,
                value: ratio,
                tone: Some(
                    if healthy < nodes.len() {
                        "warn"@
                    } else {
                        "ok"@
                    },
                ),
            },
            CardMetricView { label: "Volumes"@, value: volumes, tone: Some("accent"@) },
            CardMetricView { label: "Free"@, value: free, tone: None },
            CardMetricView {
                label: "Capacity"@,
                value: human_text(healthy_sum(nodes, total_of()) as u64),
                tone: Some("muted"@),
            },
        ],
    }
}

fn count_pending(fed: &FedState) -> (r: usize)
    ensures
        r == pending_among(names::in_order(fed@.volumes)),
{
    let ghost all = names::in_order(fed@.volumes);
    let n: usize = fed.volumes.len();
    let mut r: usize = 0;
    let mut i: usize = 0;
    while i < n
        invariant
            r <= i <= n,
            n == fed.volumes.keys().len(),
            all == names::in_order(fed@.volumes),
            r == pending_among(all.take(i as int)),
        decreases n - i,
    {
        let v: &DistVolume = fed.volumes.value_at(i);
        assert(all.take(i + 1).drop_last() =~= all.take(i as int));
        assert(all.take(i + 1).last() == v@);
        if v.assembly == AssemblyState::PendingEngineSupport {
            r = r + 1;
        }
        i = i + 1;
    }
    assert(all.take(i as int) =~= all);
    r
}

/// The dashboard card; nothing where what it shows cannot be counted.
pub fn summary_checked(fed: &FedState) -> (r: Option<Summary>)
    ensures
        r is Some <==> summary_fits(fed@),
        r matches Some(s) ==> s@ == card(fed@),
{
    let nodes: Vec<&Node> = nodes_in(fed);
    let total: usize = nodes.len();
    let healthy: usize = count_healthy(&nodes);
    let (free, cap): (u64, u64) = match healthy_bytes(&nodes) {
        Some(x) => x,
        None => {
            return None;
        },
    };
    let volumes: String = text::decimal(fed.volumes.len() as u64);
    let pending: usize = count_pending(fed);
    let ratio: String = text::decimal(healthy as u64).concat("/").concat(
        text::decimal(total as u64).as_str(),
    );
    let health: &str = if total == 0 {
        "idle"
    } else if healthy < total {
        if healthy == 0 {
            "error"
        } else {
            "warn"
        }
    } else {
        "ok"
    };
    let detail: String = ratio.clone().concat(" nodes, ").concat(volumes.as_str()).concat(
        " volumes (",
    ).concat(text::decimal(pending as u64).as_str()).concat(" pending assembly), ").concat(
        human(free).as_str(),
    ).concat(" free");
    let metrics: Vec<CardMetric> = vec![
        CardMetric {
            label: text::owned("Nodes"),
            value: ratio,
            tone: Some(
                text::owned(
                    if healthy < total {
                        "warn"
                    } else {
                        "ok"
                    },
                ),
            ),
        },
        CardMetric {
            label: text::owned("Volumes"),
            value: volumes,
            tone: Some(text::owned("accent")),
        },
        CardMetric { label: text::owned("Free"), value: human(free), tone: None },
        CardMetric {
            label: text::owned("Capacity"),
            value: human(cap),
            tone: Some(text::owned("muted")),
        },
    ];
    assert(metrics.deep_view() =~= card(fed@).metrics);
    Some(Summary { health: text::owned(health), detail, metrics })
}

/// The dashboard card.
pub fn summary(fed: &FedState) -> (r: Summary)
    requires
        summary_fits(fed@),
    ensures
        r@ == card(fed@),
{
    match summary_checked(fed) {
        Some(s) => s,
        None => vstd::pervasive::unreached(),
    }
}

} // verus!
