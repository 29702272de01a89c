//! The components feed: nodes, pools, tiers and volumes as components with
//! relations (pool has many volumes and nodes; a volume belongs to its pool, its
//! legs target node components) and real actions, so that a user interface can
//! show and drive the federation without knowing it.
//!
//! Sizes stay numbers here: whoever shows a component writes them out.

use crate::api;
use crate::config;
use crate::config::{Config, ConfigView, PoolConfig, PoolConfigView};
use crate::double;
use crate::inventory;
use crate::inventory::{
    EngineVolumeView, NodeInventory, NodeInventoryView, PlacedBy, PlacedVolume, PlacedVolumeView,
    Slab, SlabView, SlotOwners, TierRollup, TierRollupView,
};
use crate::model;
use crate::model::{
    AssemblyState, DistVolume, DistVolumeView, FedState, FedStateView, LegState, LegView, Node,
    NodeView,
};
use crate::names;
use crate::names::{Dup, NameMap};
use crate::text;
use vstd::prelude::*;
use vstd::string::*;

verus! {

#[derive(Debug, Clone, Copy, PartialEq, Eq, Structural)]
pub enum Health {
    Healthy,
    Warn,
    Error,
    Idle,
    Unknown,
}

/// A part of what is shown.
#[derive(Debug)]
pub enum Piece {
    Text(String),
    /// A size in bytes.
    Bytes(u64),
}

/// What a [`Piece`] is.
pub enum PieceView {
    Text(Seq<char>),
    Bytes(u64),
}

impl View for Piece {
    type V = PieceView;

    open spec fn view(&self) -> PieceView {
        match *self {
            Piece::Text(s) => PieceView::Text(s@),
            Piece::Bytes(n) => PieceView::Bytes(n),
        }
    }
}

impl DeepView for Piece {
    type V = PieceView;

    open spec fn deep_view(&self) -> PieceView {
        self@
    }
}

impl Dup for Piece {
    fn dup(&self) -> (r: Self) {
        match self {
            Piece::Text(s) => Piece::Text(s.clone()),
            Piece::Bytes(n) => Piece::Bytes(*n),
        }
    }
}

/// A figure of a component.
#[derive(Debug)]
pub struct Metric {
    pub label: String,
    pub value: Piece,
    pub tone: Option<String>,
}

/// What a [`Metric`] holds.
#[verifier::ext_equal]
pub struct MetricView {
    pub label: Seq<char>,
    pub value: PieceView,
    pub tone: Option<Seq<char>>,
}

impl View for Metric {
    type V = MetricView;

    open spec fn view(&self) -> MetricView {
        MetricView {
            label: self.label@,
            value: self.value@,
            tone: self.tone.deep_view(),
        }
    }
}

impl DeepView for Metric {
    type V = MetricView;

    open spec fn deep_view(&self) -> MetricView {
        self@
    }
}

impl Dup for Metric {
    fn dup(&self) -> (r: Self) {
        Metric {
            label: self.label.clone(),
            value: self.value.dup(),
            tone: self.tone.dup(),
        }
    }
}

impl Clone for Metric {
    fn clone(&self) -> (r: Self)
        ensures
            r@ == self@,
    {
        self.dup()
    }
}

/// How a component relates to others.
#[derive(Debug)]
pub struct Relation {
    pub name: String,
    /// Whether there can be several.
    pub many: bool,
    pub targets: Vec<String>,
}

/// What a [`Relation`] holds.
#[verifier::ext_equal]
pub struct RelationView {
    pub name: Seq<char>,
    pub many: bool,
    pub targets: Seq<Seq<char>>,
}

impl View for Relation {
    type V = RelationView;

    open spec fn view(&self) -> RelationView {
        RelationView {
            name: self.name@,
            many: self.many,
            targets: self.targets.deep_view(),
        }
    }
}

impl DeepView for Relation {
    type V = RelationView;

    open spec fn deep_view(&self) -> RelationView {
        self@
    }
}

impl Dup for Relation {
    fn dup(&self) -> (r: Self) {
        Relation {
            name: self.name.clone(),
            many: self.many,
            targets: self.targets.dup(),
        }
    }
}

impl Clone for Relation {
    fn clone(&self) -> (r: Self)
        ensures
            r@ == self@,
    {
        self.dup()
    }
}

/// Something that can be done to a component.
#[derive(Debug)]
pub struct Action {
    pub id: String,
    pub label: String,
    pub method: String,
    pub path: String,
    pub enabled: bool,
    pub danger: bool,
}

/// What a [`Action`] holds.
#[verifier::ext_equal]
pub struct ActionView {
    pub id: Seq<char>,
    pub label: Seq<char>,
    pub method: Seq<char>,
    pub path: Seq<char>,
    pub enabled: bool,
    pub danger: bool,
}

impl View for Action {
    type V = ActionView;

    open spec fn view(&self) -> ActionView {
        ActionView {
            id: self.id@,
            label: self.label@,
            method: self.method@,
            path: self.path@,
            enabled: self.enabled,
            danger: self.danger,
        }
    }
}

impl DeepView for Action {
    type V = ActionView;

    open spec fn deep_view(&self) -> ActionView {
        self@
    }
}

impl Dup for Action {
    fn dup(&self) -> (r: Self) {
        Action {
            id: self.id.clone(),
            label: self.label.clone(),
            method: self.method.clone(),
            path: self.path.clone(),
            enabled: self.enabled,
            danger: self.danger,
        }
    }
}

impl Clone for Action {
    fn clone(&self) -> (r: Self)
        ensures
            r@ == self@,
    {
        self.dup()
    }
}

#[derive(Debug)]
pub struct ComponentSummary {
    pub id: String,
    pub kind: String,
    pub label: String,
    pub health: Health,
    pub detail: Vec<Piece>,
    pub metrics: Vec<Metric>,
    pub actions: Vec<Action>,
    pub relations: Vec<Relation>,
    pub link: Option<String>,
}

/// What a [`ComponentSummary`] holds.
#[verifier::ext_equal]
pub struct ComponentSummaryView {
    pub id: Seq<char>,
    pub kind: Seq<char>,
    pub label: Seq<char>,
    pub health: Health,
    pub detail: Seq<PieceView>,
    pub metrics: Seq<MetricView>,
    pub actions: Seq<ActionView>,
    pub relations: Seq<RelationView>,
    pub link: Option<Seq<char>>,
}

impl View for ComponentSummary {
    type V = ComponentSummaryView;

    open spec fn view(&self) -> ComponentSummaryView {
        ComponentSummaryView {
            id: self.id@,
            kind: self.kind@,
            label: self.label@,
            health: self.health,
            detail: self.detail.deep_view(),
            metrics: self.metrics.deep_view(),
            actions: self.actions.deep_view(),
            relations: self.relations.deep_view(),
            link: self.link.deep_view(),
        }
    }
}

impl DeepView for ComponentSummary {
    type V = ComponentSummaryView;

    open spec fn deep_view(&self) -> ComponentSummaryView {
        self@
    }
}

impl Dup for ComponentSummary {
    fn dup(&self) -> (r: Self) {
        ComponentSummary {
            id: self.id.clone(),
            kind: self.kind.clone(),
            label: self.label.clone(),
            health: self.health,
            detail: self.detail.dup(),
            metrics: self.metrics.dup(),
            actions: self.actions.dup(),
            relations: self.relations.dup(),
            link: self.link.dup(),
        }
    }
}

impl Clone for ComponentSummary {
    fn clone(&self) -> (r: Self)
        ensures
            r@ == self@,
    {
        self.dup()
    }
}

pub open spec fn metric_of(
    label: Seq<char>,
    value: PieceView,
    tone: Option<Seq<char>>,
) -> MetricView {
    MetricView { label, value, tone }
}

pub open spec fn belongs(name: Seq<char>, target: Seq<char>) -> RelationView {
    RelationView { name, many: false, targets: seq![target] }
}

pub open spec fn has(name: Seq<char>, targets: Seq<Seq<char>>) -> RelationView {
    RelationView { name, many: true, targets }
}

fn size_metric(label: &str, bytes: u64, tone: Option<String>) -> (r: Metric)
    ensures
        r@ == metric_of(label@, PieceView::Bytes(bytes), tone.deep_view()),
{
    Metric { label: text::owned(label), value: Piece::Bytes(bytes), tone }
}

fn text_metric(label: &str, value: String, tone: Option<String>) -> (r: Metric)
    ensures
        r@ == metric_of(label@, PieceView::Text(value@), tone.deep_view()),
{
    Metric { label: text::owned(label), value: Piece::Text(value), tone }
}

fn tone(s: &str) -> (r: Option<String>)
    ensures
        r.deep_view() == Some(s@),
{
    Some(text::owned(s))
}

fn words(s: &str) -> (r: Piece)
    ensures
        r@ == PieceView::Text(s@),
{
    Piece::Text(text::owned(s))
}

impl Relation {
    pub fn belongs_to(name: &str, target: String) -> (r: Self)
        ensures
            r@ == belongs(name@, target@),
    {
        let targets: Vec<String> = vec![target];
        assert(targets.deep_view() =~= seq![target@]);
        Relation { name: text::owned(name), many: false, targets }
    }

    pub fn has_many(name: &str, targets: Vec<String>) -> (r: Self)
        ensures
            r@ == has(name@, targets.deep_view()),
    {
        Relation { name: text::owned(name), many: true, targets }
    }
}

/// The component id of a node's slab.
pub open spec fn slab_pool(node: Seq<char>, slab: Seq<char>) -> Seq<char> {
    "pool:"@ + node + "/"@ + slab
}

/// The component id of a node's slab.
pub fn slab_pool_id(node: &str, slab: &str) -> (r: String)
    ensures
        r@ == slab_pool(node@, slab@),
{
    text::owned("pool:").concat(node).concat("/").concat(slab)
}

/// The component id of a volume on a node's engine.
pub open spec fn node_volume(node: Seq<char>, vol: Seq<char>) -> Seq<char> {
    "nvol:"@ + node + "/"@ + vol
}

/// The component id of a volume on a node's engine.
pub fn node_volume_id(node: &str, vol: &str) -> (r: String)
    ensures
        r@ == node_volume(node@, vol@),
{
    text::owned("nvol:").concat(node).concat("/").concat(vol)
}

/// The first eight bytes of an identifier, where they are whole characters;
/// otherwise all of it.
pub fn short(id: &str) -> (r: String)
    ensures
        r@ == text::shortened(id@),
{
    text::short(id)
}

/// The share below which a slab is short of space: a tenth, as a double's bits.
pub const LOW_WATER: u64 = 0x3FB9_9999_9999_999A;

/// The health of a slab: that of its node, with a warning where less than a
/// tenth of it is free.
pub open spec fn slab_health(healthy: bool, slab: SlabView) -> Health {
    if !healthy {
        Health::Error
    } else if double::ratio_bits(slab.free_bytes, slab.total_bytes) < LOW_WATER {
        Health::Warn
    } else {
        Health::Healthy
    }
}

/// The ids of the volumes on a slab.
pub open spec fn slab_volumes(
    node: Seq<char>,
    inv: NodeInventoryView,
    slab: SlabView,
) -> Seq<Seq<char>> {
    let on = inventory::on_slab(inv.volumes, slab.id);
    Seq::new(on.len(), |i: int| node_volume(node, on[i].volume.id))
}

/// A node's slab as a pool.
pub open spec fn slab_summary(
    node: NodeView,
    inv: NodeInventoryView,
    slab: SlabView,
) -> ComponentSummaryView {
    let name = node.config.name;
    let vols = slab_volumes(name, inv, slab);
    let count = text::dec(vols.len());
    ComponentSummaryView {
        id: slab_pool(name, slab.id),
        kind: "pool"@,
        label: name + " "@ + slab.role + " "@ + slab.tier + " ("@ + text::shortened(slab.id)
            + ")"@,
        health: slab_health(node.status.healthy, slab),
        detail: seq![
            PieceView::Bytes(slab.free_bytes),
            PieceView::Text(" of "@),
            PieceView::Bytes(slab.total_bytes),
            PieceView::Text(" free · "@),
            PieceView::Bytes(slab.allocated_bytes()),
            PieceView::Text(
                " used · "@ + count + " volumes · tier "@ + slab.tier + " · role "@ + slab.role
                    + " · "@ + slab.domain,
            ),
        ],
        metrics: seq![
            metric_of("free"@, PieceView::Bytes(slab.free_bytes), None),
            metric_of("total"@, PieceView::Bytes(slab.total_bytes), Some("muted"@)),
            metric_of("used"@, PieceView::Bytes(slab.allocated_bytes()), None),
            metric_of("vols"@, PieceView::Text(count), Some("accent"@)),
            metric_of("tier"@, PieceView::Text(slab.tier), None),
            metric_of("role"@, PieceView::Text(slab.role), None),
        ],
        actions: Seq::empty(),
        relations: seq![
            belongs("node"@, "node:"@ + name),
            belongs("tier"@, "tier:"@ + slab.tier),
            has("volumes"@, vols),
        ],
        link: None,
    }
}

/// No actions.
fn no_actions() -> (r: Vec<Action>)
    ensures
        r.deep_view() == Seq::<ActionView>::empty(),
{
    let r: Vec<Action> = Vec::new();
    assert(r.deep_view() =~= Seq::<ActionView>::empty());
    r
}

/// A node's slab as a pool: its tier, role and failure domain, what is free,
/// and the volumes on it.
pub fn slab_component(node: &Node, inv: &NodeInventory, slab: &Slab) -> (r: ComponentSummary)
    ensures
        r@ == slab_summary(node@, inv@, slab@),
{
    let name: &str = node.config.name.as_str();
    let ghost want = slab_summary(node@, inv@, slab@);
    let on: Vec<&PlacedVolume> = inventory::volumes_on(inv, slab.id.as_str());
    let mut vols: Vec<String> = Vec::new();
    let mut i: usize = 0;
    while i < on.len()
        invariant
            i <= on.len(),
            vols.len() == i,
            name@ == node@.config.name,
            forall|j: int|
                0 <= j < i ==> (#[trigger] vols[j])@ == node_volume(
                    node@.config.name,
                    on[j]@.volume.id,
                ),
        decreases on.len() - i,
    {
        vols.push(node_volume_id(name, on[i].volume.id.as_str()));
        i = i + 1;
    }
    assert(on.deep_view().len() == on.len());
    assert(vols.deep_view() =~= slab_volumes(node@.config.name, inv@, slab@));
    let health: Health = if !node.status.healthy {
        Health::Error
    } else if double::ratio(slab.free_bytes, slab.total_bytes) < LOW_WATER {
        Health::Warn
    } else {
        Health::Healthy
    };
    let used: u64 = slab.allocated_bytes();
    let count: String = text::decimal(vols.len() as u64);
    let rest: String = text::owned(" used · ").concat(count.as_str()).concat(
        " volumes · tier ",
    ).concat(slab.tier.as_str()).concat(" · role ").concat(slab.role.as_str()).concat(
        " · ",
    ).concat(slab.domain.as_str());
    let detail: Vec<Piece> = vec![
        Piece::Bytes(slab.free_bytes),
        words(" of "),
        Piece::Bytes(slab.total_bytes),
        words(" free · "),
        Piece::Bytes(used),
        Piece::Text(rest),
    ];
    assert(detail.deep_view() =~= want.detail);
    let metrics: Vec<Metric> = vec![
        size_metric("free", slab.free_bytes, None),
        size_metric("total", slab.total_bytes, tone("muted")),
        size_metric("used", used, None),
        text_metric("vols", count, tone("accent")),
        text_metric("tier", slab.tier.clone(), None),
        text_metric("role", slab.role.clone(), None),
    ];
    assert(metrics.deep_view() =~= want.metrics);
    let relations: Vec<Relation> = vec![
        Relation::belongs_to("node", text::owned("node:").concat(name)),
        Relation::belongs_to("tier", text::owned("tier:").concat(slab.tier.as_str())),
        Relation::has_many("volumes", vols),
    ];
    assert(relations.deep_view() =~= want.relations);
    ComponentSummary {
        id: slab_pool_id(name, slab.id.as_str()),
        kind: text::owned("pool"),
        label: text::owned(name).concat(" ").concat(slab.role.as_str()).concat(" ").concat(
            slab.tier.as_str(),
        ).concat(" (").concat(short(slab.id.as_str()).as_str()).concat(")"),
        health,
        detail,
        metrics,
        actions: no_actions(),
        relations,
        link: None,
    }
}

/// The names, each with the prefix.
pub open spec fn prefixed(prefix: Seq<char>, names: Seq<Seq<char>>) -> Seq<Seq<char>> {
    Seq::new(names.len(), |i: int| prefix + names[i])
}

fn with_prefix(prefix: &str, names: &Vec<String>) -> (r: Vec<String>)
    ensures
        r.deep_view() == prefixed(prefix@, names.deep_view()),
{
    let mut r: Vec<String> = Vec::new();
    let mut i: usize = 0;
    while i < names.len()
        invariant
            i <= names.len(),
            r.len() == i,
            forall|j: int| 0 <= j < i ==> (#[trigger] r[j])@ == prefix@ + names[j]@,
        decreases names.len() - i,
    {
        r.push(text::owned(prefix).concat(names[i].as_str()));
        i = i + 1;
    }
    assert(r.deep_view() =~= prefixed(prefix@, names.deep_view()));
    r
}

/// A tier across the nodes.
pub open spec fn tier_summary(t: TierRollupView) -> ComponentSummaryView {
    let count = text::dec(t.volumes as nat);
    ComponentSummaryView {
        id: "tier:"@ + t.tier,
        kind: "tier"@,
        label: "tier "@ + t.tier,
        health: Health::Healthy,
        detail: seq![
            PieceView::Bytes(t.free_bytes),
            PieceView::Text(" of "@),
            PieceView::Bytes(t.total_bytes),
            PieceView::Text(
                " free · "@ + text::dec(t.slabs.len()) + " slab(s) on "@ + text::dec(t.nodes.len())
                    + " node(s) · "@ + count + " volumes"@,
            ),
        ],
        metrics: seq![
            metric_of("free"@, PieceView::Bytes(t.free_bytes), None),
            metric_of("total"@, PieceView::Bytes(t.total_bytes), Some("muted"@)),
            metric_of("used"@, PieceView::Bytes(t.allocated_bytes), None),
            metric_of("vols"@, PieceView::Text(count), Some("accent"@)),
        ],
        actions: Seq::empty(),
        relations: seq![has("pools"@, prefixed("pool:"@, t.slabs))],
        link: None,
    }
}

/// A tier across the nodes.
pub fn tier_component(t: &TierRollup) -> (r: ComponentSummary)
    ensures
        r@ == tier_summary(t@),
{
    let ghost want = tier_summary(t@);
    let count: String = text::decimal(t.volumes as u64);
    let rest: String = text::owned(" free · ").concat(
        text::decimal(t.slabs.len() as u64).as_str(),
    ).concat(" slab(s) on ").concat(text::decimal(t.nodes.len() as u64).as_str()).concat(
        " node(s) · ",
    ).concat(count.as_str()).concat(" volumes");
    let detail: Vec<Piece> = vec![
        Piece::Bytes(t.free_bytes),
        words(" of "),
        Piece::Bytes(t.total_bytes),
        Piece::Text(rest),
    ];
    assert(detail.deep_view() =~= want.detail);
    let metrics: Vec<Metric> = vec![
        size_metric("free", t.free_bytes, None),
        size_metric("total", t.total_bytes, tone("muted")),
        size_metric("used", t.allocated_bytes, None),
        text_metric("vols", count, tone("accent")),
    ];
    assert(metrics.deep_view() =~= want.metrics);
    let relations: Vec<Relation> = vec![Relation::has_many("pools", with_prefix("pool:", &t.slabs))];
    assert(relations.deep_view() =~= want.relations);
    ComponentSummary {
        id: text::owned("tier:").concat(t.tier.as_str()),
        kind: text::owned("tier"),
        label: text::owned("tier ").concat(t.tier.as_str()),
        health: Health::Healthy,
        detail,
        metrics,
        actions: no_actions(),
        relations,
        link: None,
    }
}

/// The health of a volume, by its engine's word for it.
pub open spec fn volume_health(health: Seq<char>) -> Health {
    if health == "healthy"@ {
        Health::Healthy
    } else if health == "degraded"@ {
        Health::Warn
    } else if health == "failed"@ {
        Health::Error
    } else {
        Health::Unknown
    }
}

/// The ids, each shortened.
pub open spec fn all_shortened(ids: Seq<Seq<char>>) -> Seq<Seq<char>> {
    Seq::new(ids.len(), |i: int| text::shortened(ids[i]))
}

/// The component ids of a node's slabs.
pub open spec fn slab_pool_ids(node: Seq<char>, slabs: Seq<Seq<char>>) -> Seq<Seq<char>> {
    Seq::new(slabs.len(), |i: int| slab_pool(node, slabs[i]))
}

/// One volume on a node's engine, in its pools, with what owns it.
pub open spec fn node_volume_summary(node: Seq<char>, v: PlacedVolumeView) -> ComponentSummaryView {
    let ev = v.volume;
    let consumer = match ev.owner {
        Some(o) => o.describe(),
        None => if ev.sealed {
            "sealed"@
        } else {
            "unowned"@
        },
    };
    let placed = if v.placed_by == PlacedBy::Unknown {
        "slab unknown"@
    } else {
        "on "@ + text::joined(all_shortened(v.slabs), "+"@)
    };
    let redundancy = if ev.redundancy.len() == 0 {
        "none"@
    } else {
        ev.redundancy
    };
    let metrics = seq![
        metric_of("size"@, PieceView::Bytes(ev.virtual_size_bytes), None),
        metric_of("used"@, PieceView::Bytes(ev.allocated_bytes), None),
        metric_of("role"@, PieceView::Text(ev.role), None),
    ];
    let relations = seq![belongs("node"@, "node:"@ + node)];
    ComponentSummaryView {
        id: node_volume(node, ev.id),
        kind: "volume"@,
        label: ev.name,
        health: volume_health(ev.health),
        detail: seq![
            PieceView::Bytes(ev.virtual_size_bytes),
            PieceView::Text(
                " · "@ + node + " · "@ + redundancy + " · "@ + placed + " · "@ + consumer,
            ),
        ],
        metrics: if ev.sealed {
            metrics.push(metric_of("sealed"@, PieceView::Text("yes"@), Some("muted"@)))
        } else {
            metrics
        },
        actions: Seq::empty(),
        relations: if v.slabs.len() > 0 {
            relations.push(has("pools"@, slab_pool_ids(node, v.slabs)))
        } else {
            relations
        },
        link: None,
    }
}

fn shorten_all(ids: &Vec<String>) -> (r: Vec<String>)
    ensures
        r.deep_view() == all_shortened(ids.deep_view()),
{
    let mut r: Vec<String> = Vec::new();
    let mut i: usize = 0;
    while i < ids.len()
        invariant
            i <= ids.len(),
            r.len() == i,
            forall|j: int| 0 <= j < i ==> (#[trigger] r[j])@ == text::shortened(ids[j]@),
        decreases ids.len() - i,
    {
        r.push(short(ids[i].as_str()));
        i = i + 1;
    }
    assert(r.deep_view() =~= all_shortened(ids.deep_view()));
    r
}

fn pool_ids(node: &str, slabs: &Vec<String>) -> (r: Vec<String>)
    ensures
        r.deep_view() == slab_pool_ids(node@, slabs.deep_view()),
{
    let mut r: Vec<String> = Vec::new();
    let mut i: usize = 0;
    while i < slabs.len()
        invariant
            i <= slabs.len(),
            r.len() == i,
            forall|j: int| 0 <= j < i ==> (#[trigger] r[j])@ == slab_pool(node@, slabs[j]@),
        decreases slabs.len() - i,
    {
        r.push(slab_pool_id(node, slabs[i].as_str()));
        i = i + 1;
    }
    assert(r.deep_view() =~= slab_pool_ids(node@, slabs.deep_view()));
    r
}

/// One volume on a node's engine, in its pools, with what owns it.
pub fn node_volume_component(node: &str, v: &PlacedVolume) -> (r: ComponentSummary)
    ensures
        r@ == node_volume_summary(node@, v@),
{
    let ghost want = node_volume_summary(node@, v@);
    let ev = &v.volume;
    proof {
        reveal_strlit("healthy");
        reveal_strlit("degraded");
        reveal_strlit("failed");
        reveal_strlit("");
        if ev@.redundancy.len() == 0 {
            assert(ev@.redundancy =~= ""@);
        }
    }
    let health: Health = if text::same(ev.health.as_str(), "healthy") {
        Health::Healthy
    } else if text::same(ev.health.as_str(), "degraded") {
        Health::Warn
    } else if text::same(ev.health.as_str(), "failed") {
        Health::Error
    } else {
        Health::Unknown
    };
    let consumer: String = match &ev.owner {
        Some(o) => o.describe(),
        None => if ev.sealed {
            text::owned("sealed")
        } else {
            text::owned("unowned")
        },
    };
    let placed: String = if v.placed_by == PlacedBy::Unknown {
        text::owned("slab unknown")
    } else {
        text::owned("on ").concat(text::join(&shorten_all(&v.slabs), "+").as_str())
    };
    let redundancy: &str = if text::same(ev.redundancy.as_str(), "") {
        "none"
    } else {
        ev.redundancy.as_str()
    };
    let rest: String = text::owned(" · ").concat(node).concat(" · ").concat(redundancy).concat(
        " · ",
    ).concat(placed.as_str()).concat(" · ").concat(consumer.as_str());
    let detail: Vec<Piece> = vec![Piece::Bytes(ev.virtual_size_bytes), Piece::Text(rest)];
    assert(detail.deep_view() =~= want.detail);
    let mut metrics: Vec<Metric> = vec![
        size_metric("size", ev.virtual_size_bytes, None),
        size_metric("used", ev.allocated_bytes, None),
        text_metric("role", ev.role.clone(), None),
    ];
    if ev.sealed {
        metrics.push(text_metric("sealed", text::owned("yes"), tone("muted")));
    }
    assert(metrics.deep_view() =~= want.metrics);
    let mut relations: Vec<Relation> = vec![
        Relation::belongs_to("node", text::owned("node:").concat(node)),
    ];
    if v.slabs.len() > 0 {
        relations.push(Relation::has_many("pools", pool_ids(node, &v.slabs)));
    }
    assert(relations.deep_view() =~= want.relations);
    ComponentSummary {
        id: node_volume_id(node, ev.id.as_str()),
        kind: text::owned("volume"),
        label: ev.name.clone(),
        health,
        detail,
        metrics,
        actions: no_actions(),
        relations,
        link: None,
    }
}

/// The ids of slabs.
pub open spec fn slab_ids(slabs: Seq<SlabView>) -> Seq<Seq<char>> {
    Seq::new(slabs.len(), |i: int| slabs[i].id)
}

fn ids_of(slabs: &Vec<Slab>) -> (r: Vec<String>)
    ensures
        r.deep_view() == slab_ids(slabs.deep_view()),
{
    let mut r: Vec<String> = Vec::new();
    let mut i: usize = 0;
    while i < slabs.len()
        invariant
            i <= slabs.len(),
            r.len() == i,
            forall|j: int| 0 <= j < i ==> (#[trigger] r[j])@ == slabs[j]@.id,
        decreases slabs.len() - i,
    {
        r.push(slabs[i].id.clone());
        i = i + 1;
    }
    assert(r.deep_view() =~= slab_ids(slabs.deep_view()));
    r
}

/// A node.
pub open spec fn node_summary(n: NodeView, inv: Option<NodeInventoryView>) -> ComponentSummaryView {
    let state = if n.status.healthy {
        "reachable"@
    } else {
        "unreachable"@
    };
    let parts = match n.config.tier {
        Some(t) => seq![n.config.engine_url, "tier "@ + t, state],
        None => seq![n.config.engine_url, state],
    };
    ComponentSummaryView {
        id: "node:"@ + n.config.name,
        kind: "node"@,
        label: n.config.name,
        health: if n.status.healthy {
            Health::Healthy
        } else {
            Health::Error
        },
        detail: seq![PieceView::Text(text::joined(parts, " · "@))],
        metrics: seq![
            metric_of("free"@, PieceView::Bytes(n.status.free_bytes), None),
            metric_of("total"@, PieceView::Bytes(n.status.total_bytes), Some("muted"@)),
            metric_of("vols"@, PieceView::Text(text::dec(n.status.volumes as nat)), None),
        ],
        actions: Seq::empty(),
        relations: seq![
            belongs("system"@, "system"@),
            has(
                "pools"@,
                match inv {
                    Some(i) => slab_pool_ids(n.config.name, slab_ids(i.slabs)),
                    None => Seq::empty(),
                },
            ),
        ],
        link: None,
    }
}

/// A node, with its slabs where they are known.
pub fn node_component(n: &Node, inv: Option<&NodeInventory>) -> (r: ComponentSummary)
    ensures
        r@ == node_summary(n@, inv.deep_view()),
{
    let ghost want = node_summary(n@, inv.deep_view());
    let state: String = if n.status.healthy {
        text::owned("reachable")
    } else {
        text::owned("unreachable")
    };
    let mut parts: Vec<String> = vec![n.config.engine_url.clone()];
    if let Some(t) = &n.config.tier {
        parts.push(text::owned("tier ").concat(t.as_str()));
    }
    parts.push(state);
    assert(parts.deep_view() =~= match n@.config.tier {
        Some(t) => seq![n@.config.engine_url, "tier "@ + t, state@],
        None => seq![n@.config.engine_url, state@],
    });
    let detail: Vec<Piece> = vec![Piece::Text(text::join(&parts, " · "))];
    assert(detail.deep_view() =~= want.detail);
    let metrics: Vec<Metric> = vec![
        size_metric("free", n.status.free_bytes, None),
        size_metric("total", n.status.total_bytes, tone("muted")),
        text_metric("vols", text::decimal(n.status.volumes), None),
    ];
    assert(metrics.deep_view() =~= want.metrics);
    let pools: Vec<String> = match inv {
        Some(i) => pool_ids(n.config.name.as_str(), &ids_of(&i.slabs)),
        None => {
            let none: Vec<String> = Vec::new();
            assert(none.deep_view() =~= Seq::<Seq<char>>::empty());
            none
        },
    };
    let relations: Vec<Relation> = vec![
        Relation::belongs_to("system", text::owned("system")),
        Relation::has_many("pools", pools),
    ];
    assert(relations.deep_view() =~= want.relations);
    ComponentSummary {
        id: text::owned("node:").concat(n.config.name.as_str()),
        kind: text::owned("node"),
        label: n.config.name.clone(),
        health: if n.status.healthy {
            Health::Healthy
        } else {
            Health::Error
        },
        detail,
        metrics,
        actions: no_actions(),
        relations,
        link: None,
    }
}

/// Whether a leg could not be created.
pub open spec fn any_failed(legs: Seq<LegView>) -> bool {
    exists|i: int| 0 <= i < legs.len() && (#[trigger] legs[i]).state == LegState::Failed
}

/// The component ids of the nodes of the legs.
pub open spec fn leg_targets(legs: Seq<LegView>) -> Seq<Seq<char>> {
    Seq::new(legs.len(), |i: int| "node:"@ + legs[i].node)
}

/// A distributed volume.
pub open spec fn volume_summary(v: DistVolumeView) -> ComponentSummaryView {
    let count = text::dec(v.legs.len());
    let pool = match v.pool {
        Some(p) => " · pool "@ + p,
        None => ""@,
    };
    let metrics = seq![
        metric_of("size"@, PieceView::Bytes(v.size_bytes), None),
        metric_of("legs"@, PieceView::Text(count), Some("accent"@)),
    ];
    let relations = seq![has("legs"@, leg_targets(v.legs))];
    ComponentSummaryView {
        id: "volume:"@ + v.name,
        kind: "volume"@,
        label: v.name,
        health: if any_failed(v.legs) {
            Health::Error
        } else {
            Health::Healthy
        },
        detail: seq![
            PieceView::Bytes(v.size_bytes),
            PieceView::Text(
                " · "@ + count + " leg(s) at rung "@ + text::quoted_text(v.rung) + pool,
            ),
        ],
        metrics: match v.assembly {
            AssemblyState::Assembled => metrics.push(
                metric_of("assembly"@, PieceView::Text("raid1"@), Some("ok"@)),
            ),
            AssemblyState::PendingEngineSupport => metrics.push(
                metric_of("assembly"@, PieceView::Text("pending"@), Some("warn"@)),
            ),
            AssemblyState::SingleLeg => metrics,
        },
        actions: seq![
            ActionView {
                id: "delete"@,
                label: "Delete"@,
                method: "DELETE"@,
                path: "/api/v1/volumes/"@ + v.name,
                enabled: true,
                danger: true,
            },
        ],
        relations: match v.pool {
            Some(p) => relations.push(belongs("pool"@, "pool:"@ + p)),
            None => relations,
        },
        link: None,
    }
}

/// A distributed volume, with the action that deletes it.
pub fn volume_component(v: &DistVolume) -> (r: ComponentSummary)
    ensures
        r@ == volume_summary(v@),
{
    let ghost want = volume_summary(v@);
    let mut failed: bool = false;
    let mut targets: Vec<String> = Vec::new();
    let mut i: usize = 0;
    while i < v.legs.len()
        invariant
            i <= v.legs.len(),
            targets.len() == i,
            forall|j: int| 0 <= j < i ==> (#[trigger] targets[j])@ == "node:"@ + v.legs[j]@.node,
            failed == exists|j: int|
                0 <= j < i && (#[trigger] v@.legs[j]).state == LegState::Failed,
        decreases v.legs.len() - i,
    {
        assert(v@.legs[i as int] == v.legs[i as int]@);
        if v.legs[i].state == LegState::Failed {
            failed = true;
        }
        targets.push(text::owned("node:").concat(v.legs[i].node.as_str()));
        i = i + 1;
    }
    assert(targets.deep_view() =~= leg_targets(v@.legs));
    let count: String = text::decimal(v.legs.len() as u64);
    let mut metrics: Vec<Metric> = vec![
        size_metric("size", v.size_bytes, None),
        text_metric("legs", count.clone(), tone("accent")),
    ];
    match v.assembly {
        AssemblyState::Assembled => {
            metrics.push(text_metric("assembly", text::owned("raid1"), tone("ok")));
        },
        AssemblyState::PendingEngineSupport => {
            metrics.push(text_metric("assembly", text::owned("pending"), tone("warn")));
        },
        AssemblyState::SingleLeg => {},
    }
    assert(metrics.deep_view() =~= want.metrics);
    let mut relations: Vec<Relation> = vec![Relation::has_many("legs", targets)];
    let mut pool: String = text::owned("");
    if let Some(p) = &v.pool {
        relations.push(
            Relation::belongs_to("pool", text::owned("pool:").concat(p.as_str())),
        );
        pool = text::owned(" · pool ").concat(p.as_str());
    }
    assert(relations.deep_view() =~= want.relations);
    let rest: String = text::owned(" · ").concat(count.as_str()).concat(
        " leg(s) at rung ",
    ).concat(text::quoted(v.rung.as_str()).as_str()).concat(pool.as_str());
    let detail: Vec<Piece> = vec![Piece::Bytes(v.size_bytes), Piece::Text(rest)];
    assert(detail.deep_view() =~= want.detail);
    let actions: Vec<Action> = vec![
        Action {
            id: text::owned("delete"),
            label: text::owned("Delete"),
            method: text::owned("DELETE"),
            path: text::owned("/api/v1/volumes/").concat(v.name.as_str()),
            enabled: true,
            danger: true,
        },
    ];
    assert(actions.deep_view() =~= want.actions);
    ComponentSummary {
        id: text::owned("volume:").concat(v.name.as_str()),
        kind: text::owned("volume"),
        label: v.name.clone(),
        health: if failed {
            Health::Error
        } else {
            Health::Healthy
        },
        detail,
        metrics,
        actions,
        relations,
        link: None,
    }
}

/// The component ids of the slabs of these nodes, node by node.
pub open spec fn feed_slabs(
    inv: Map<Seq<char>, NodeInventoryView>,
    nodes: Seq<Seq<char>>,
) -> Seq<Seq<char>>
    decreases nodes.len(),
{
    if nodes.len() == 0 {
        Seq::empty()
    } else {
        feed_slabs(inv, nodes.drop_last()) + slab_pool_ids(
            nodes.last(),
            slab_ids(inv[nodes.last()].slabs),
        )
    }
}

/// How many volumes the engines of these nodes have.
pub open spec fn feed_volumes(
    inv: Map<Seq<char>, NodeInventoryView>,
    nodes: Seq<Seq<char>>,
) -> nat
    decreases nodes.len(),
{
    if nodes.len() == 0 {
        0
    } else {
        feed_volumes(inv, nodes.drop_last()) + inv[nodes.last()].volumes.len()
    }
}

/// The health of the whole, by how many of its nodes are healthy.
pub open spec fn system_health(healthy: nat, total: nat) -> Health {
    if total == 0 {
        Health::Idle
    } else if healthy == 0 {
        Health::Error
    } else if healthy < total {
        Health::Warn
    } else {
        Health::Healthy
    }
}

/// The names of the pools.
pub open spec fn pool_names(pools: Seq<PoolConfigView>) -> Seq<Seq<char>> {
    Seq::new(pools.len(), |i: int| pools[i].name)
}

/// The names of the tiers.
pub open spec fn tier_labels(tiers: Seq<TierRollupView>) -> Seq<Seq<char>> {
    Seq::new(tiers.len(), |i: int| tiers[i].tier)
}

/// The system as a whole.
pub open spec fn system_summary(
    config: ConfigView,
    fed: FedStateView,
    inv: Map<Seq<char>, NodeInventoryView>,
) -> ComponentSummaryView {
    let nodes = names::in_order(fed.nodes);
    let healthy = api::healthy_among(nodes);
    let ratio = text::dec(healthy) + "/"@ + text::dec(nodes.len());
    let slabs = feed_slabs(inv, names::sorted(inv.dom()));
    let pools = text::dec((config.pools.len() + slabs.len()) as nat);
    let volumes = text::dec(
        names::in_order(fed.volumes).len() + feed_volumes(inv, names::sorted(inv.dom())),
    );
    let free = api::healthy_sum(nodes, api::free_of()) as u64;
    ComponentSummaryView {
        id: "system"@,
        kind: "storage"@,
        label: "stormstorage"@,
        health: system_health(healthy, nodes.len()),
        detail: seq![
            PieceView::Text(
                ratio + " nodes · "@ + pools + " pools · "@ + volumes + " volumes · "@,
            ),
            PieceView::Bytes(free),
            PieceView::Text(" free · rev "@ + text::dec(fed.revision as nat)),
        ],
        metrics: seq![
            metric_of("nodes"@, PieceView::Text(ratio), None),
            metric_of("pools"@, PieceView::Text(pools), None),
            metric_of("volumes"@, PieceView::Text(volumes), Some("accent"@)),
            metric_of("free"@, PieceView::Bytes(free), None),
        ],
        actions: Seq::empty(),
        relations: seq![
            has("nodes"@, prefixed("node:"@, names::sorted(fed.nodes.dom()))),
            has("pools"@, prefixed("pool:"@, pool_names(config.pools)) + slabs),
            has("tiers"@, prefixed("tier:"@, tier_labels(inventory::rollups(inv)))),
        ],
        link: None,
    }
}

/// The component ids of the volumes in a pool.
pub open spec fn pool_volumes(volumes: Seq<DistVolumeView>, pool: Seq<char>) -> Seq<Seq<char>>
    decreases volumes.len(),
{
    if volumes.len() == 0 {
        Seq::empty()
    } else {
        let front = pool_volumes(volumes.drop_last(), pool);
        if volumes.last().pool == Some(pool) {
            front.push("volume:"@ + volumes.last().name)
        } else {
            front
        }
    }
}

/// A pool lists every volume that belongs to it.
pub proof fn pool_lists_its_volumes(volumes: Seq<DistVolumeView>, pool: Seq<char>, i: int)
    requires
        0 <= i < volumes.len(),
        volumes[i].pool == Some(pool),
    ensures
        pool_volumes(volumes, pool).contains(volume_summary(volumes[i]).id),
    decreases volumes.len(),
{
    let front = pool_volumes(volumes.drop_last(), pool);
    let all = pool_volumes(volumes, pool);
    if i < volumes.len() - 1 {
        pool_lists_its_volumes(volumes.drop_last(), pool, i);
        let k = front.index_of("volume:"@ + volumes[i].name);
        assert(all[k] == front[k]);
    } else {
        assert(all[front.len() as int] == "volume:"@ + volumes[i].name);
    }
}

/// The health of a pool, by how many of the nodes it draws from are healthy.
pub open spec fn pool_health(healthy: nat, members: nat) -> Health {
    if members == 0 || healthy == 0 {
        Health::Error
    } else if healthy < members {
        Health::Warn
    } else {
        Health::Healthy
    }
}

/// A configured pool.
pub open spec fn pool_summary(pool: PoolConfigView, fed: FedStateView) -> ComponentSummaryView {
    let members = api::members_of(pool.selector, names::in_order(fed.nodes));
    let healthy = api::healthy_among(members);
    let ratio = text::dec(healthy) + "/"@ + text::dec(members.len());
    let free = api::healthy_sum(members, api::free_of()) as u64;
    let volumes = pool_volumes(names::in_order(fed.volumes), pool.name);
    ComponentSummaryView {
        id: "pool:"@ + pool.name,
        kind: "pool"@,
        label: pool.name,
        health: pool_health(healthy, members.len()),
        detail: seq![
            PieceView::Text(
                ratio + " nodes · replicas "@ + text::dec(pool.replicas as nat) + " at rung "@
                    + text::quoted_text(pool.rung) + " · "@,
            ),
            PieceView::Bytes(free),
            PieceView::Text(" free"@),
        ],
        metrics: seq![
            metric_of("nodes"@, PieceView::Text(ratio), None),
            metric_of("volumes"@, PieceView::Text(text::dec(volumes.len())), Some("accent"@)),
            metric_of("free"@, PieceView::Bytes(free), None),
        ],
        actions: Seq::empty(),
        relations: seq![
            has("nodes"@, prefixed("node:"@, api::names_of(members))),
            has("volumes"@, volumes),
        ],
        link: None,
    }
}

/// The slabs of a node.
pub open spec fn slab_feed(node: NodeView, inv: NodeInventoryView) -> Seq<ComponentSummaryView> {
    Seq::new(inv.slabs.len(), |i: int| slab_summary(node, inv, inv.slabs[i]))
}

/// What is known of a node's engine.
pub open spec fn inventory_of(
    inv: Map<Seq<char>, NodeInventoryView>,
    node: NodeView,
) -> Option<NodeInventoryView> {
    if inv.contains_key(node.config.name) {
        Some(inv[node.config.name])
    } else {
        None
    }
}

/// The nodes, each followed by its slabs.
pub open spec fn node_feed(
    nodes: Seq<NodeView>,
    inv: Map<Seq<char>, NodeInventoryView>,
) -> Seq<ComponentSummaryView>
    decreases nodes.len(),
{
    if nodes.len() == 0 {
        Seq::empty()
    } else {
        let n = nodes.last();
        let known = inventory_of(inv, n);
        node_feed(nodes.drop_last(), inv).push(node_summary(n, known)) + match known {
            Some(i) => slab_feed(n, i),
            None => Seq::empty(),
        }
    }
}

/// The volumes on one node's engine.
pub open spec fn node_volume_feed(node: Seq<char>, inv: NodeInventoryView) -> Seq<
    ComponentSummaryView,
> {
    Seq::new(inv.volumes.len(), |i: int| node_volume_summary(node, inv.volumes[i]))
}

/// The volumes on the engines of these nodes.
pub open spec fn engine_feed(
    inv: Map<Seq<char>, NodeInventoryView>,
    nodes: Seq<Seq<char>>,
) -> Seq<ComponentSummaryView>
    decreases nodes.len(),
{
    if nodes.len() == 0 {
        Seq::empty()
    } else {
        engine_feed(inv, nodes.drop_last()) + node_volume_feed(nodes.last(), inv[nodes.last()])
    }
}

pub open spec fn pool_feed(pools: Seq<PoolConfigView>, fed: FedStateView) -> Seq<
    ComponentSummaryView,
> {
    Seq::new(pools.len(), |i: int| pool_summary(pools[i], fed))
}

pub open spec fn tier_feed(tiers: Seq<TierRollupView>) -> Seq<ComponentSummaryView> {
    Seq::new(tiers.len(), |i: int| tier_summary(tiers[i]))
}

pub open spec fn volume_feed(volumes: Seq<DistVolumeView>) -> Seq<ComponentSummaryView> {
    Seq::new(volumes.len(), |i: int| volume_summary(volumes[i]))
}

/// The whole feed: the system, its pools, its tiers, its nodes with their
/// slabs, its volumes, and the volumes on each engine.
pub open spec fn feed(
    config: ConfigView,
    fed: FedStateView,
    inv: Map<Seq<char>, NodeInventoryView>,
) -> Seq<ComponentSummaryView> {
    seq![system_summary(config, fed, inv)] + pool_feed(config.pools, fed) + tier_feed(
        inventory::rollups(inv),
    ) + node_feed(names::in_order(fed.nodes), inv) + volume_feed(names::in_order(fed.volumes))
        + engine_feed(inv, names::sorted(inv.dom()))
}

/// Whether what the feed shows can be counted.
pub open spec fn feed_fits(
    config: ConfigView,
    fed: FedStateView,
    inv: Map<Seq<char>, NodeInventoryView>,
) -> bool {
    let keys = names::sorted(inv.dom());
    &&& inventory::tiers_fit(inv)
    &&& api::healthy_sum(names::in_order(fed.nodes), api::free_of()) <= u64::MAX
    &&& names::in_order(fed.volumes).len() + feed_volumes(inv, keys) <= usize::MAX
    &&& config.pools.len() + feed_slabs(inv, keys).len() <= usize::MAX
}

fn free_bytes(nodes: &Vec<&Node>) -> (r: Option<u64>)
    ensures
        r is Some <==> api::healthy_sum(nodes.deep_view(), api::free_of()) <= u64::MAX,
        r matches Some(x) ==> x == api::healthy_sum(nodes.deep_view(), api::free_of()),
{
    let ghost all = nodes.deep_view();
    let mut free: u64 = 0;
    let mut i: usize = 0;
    while i < nodes.len()
        invariant
            i <= nodes.len(),
            all == nodes.deep_view(),
            free == api::healthy_sum(all.take(i as int), api::free_of()),
        decreases nodes.len() - i,
    {
        let node: &Node = nodes[i];
        proof {
            assert(all.take(i + 1).drop_last() =~= all.take(i as int));
            assert(all.take(i + 1).last() == node@);
            api::healthy_sum_grows(all, api::free_of(), i + 1);
        }
        if node.status.healthy {
            if free > u64::MAX - node.status.free_bytes {
                return None;
            }
            free = free + node.status.free_bytes;
        }
        i = i + 1;
    }
    assert(all.take(i as int) =~= all);
    Some(free)
}

/// All slabs as component ids.
fn all_slab_ids(inv: &NameMap<NodeInventory>) -> (r: Vec<String>)
    ensures
        r.deep_view() == feed_slabs(inv@, names::sorted(inv@.dom())),
{
    let n: usize = inv.len();
    let ghost keys = inv.keys();
    let mut r: Vec<String> = Vec::new();
    let mut i: usize = 0;
    assert(r.deep_view() =~= feed_slabs(inv@, keys.take(0)));
    while i < n
        invariant
            i <= n,
            n == keys.len(),
            keys == inv.keys(),
            r.deep_view() == feed_slabs(inv@, keys.take(i as int)),
        decreases n - i,
    {
        let node: &String = inv.key_at(i);
        let mut more: Vec<String> = pool_ids(
            node.as_str(),
            &ids_of(&inv.value_at(i).slabs),
        );
        let ghost was = r.deep_view();
        let ghost new = more.deep_view();
        r.append(&mut more);
        assert(r.deep_view() =~= was + new);
        assert(keys.take(i + 1).drop_last() =~= keys.take(i as int));
        assert(keys.take(i + 1).last() == node@);
        i = i + 1;
    }
    assert(keys.take(i as int) =~= keys);
    r
}

proof fn feed_volumes_grows(
    inv: Map<Seq<char>, NodeInventoryView>,
    nodes: Seq<Seq<char>>,
    n: int,
)
    requires
        0 <= n <= nodes.len(),
    ensures
        feed_volumes(inv, nodes.take(n)) <= feed_volumes(inv, nodes),
    decreases nodes.len() - n,
{
    if n < nodes.len() {
        feed_volumes_grows(inv, nodes, n + 1);
        assert(nodes.take(n + 1).drop_last() =~= nodes.take(n));
    } else {
        assert(nodes.take(n) =~= nodes);
    }
}

/// How many volumes there are, those on the engines added to `first`.
fn count_volumes(first: usize, inv: &NameMap<NodeInventory>) -> (r: Option<usize>)
    ensures
        r is Some <==> first + feed_volumes(inv@, names::sorted(inv@.dom())) <= usize::MAX,
        r matches Some(x) ==> x == first + feed_volumes(inv@, names::sorted(inv@.dom())),
{
    let n: usize = inv.len();
    let ghost keys = inv.keys();
    let mut count: usize = first;
    let mut i: usize = 0;
    while i < n
        invariant
            i <= n,
            n == keys.len(),
            keys == inv.keys(),
            count == first + feed_volumes(inv@, keys.take(i as int)),
        decreases n - i,
    {
        let here: &NodeInventory = inv.value_at(i);
        proof {
            assert(keys.take(i + 1).drop_last() =~= keys.take(i as int));
            feed_volumes_grows(inv@, keys, i + 1);
            assert(here@.volumes.len() == here.volumes.len());
        }
        if count > usize::MAX - here.volumes.len() {
            return None;
        }
        count = count + here.volumes.len();
        i = i + 1;
    }
    assert(keys.take(i as int) =~= keys);
    Some(count)
}

fn key_list(nodes: &NameMap<Node>) -> (r: Vec<String>)
    ensures
        r.deep_view() == names::sorted(nodes@.dom()),
{
    nodes.key_set().to_vec()
}

fn names_of_pools(pools: &Vec<PoolConfig>) -> (r: Vec<String>)
    ensures
        r.deep_view() == pool_names(pools.deep_view()),
{
    let mut r: Vec<String> = Vec::new();
    let mut i: usize = 0;
    while i < pools.len()
        invariant
            i <= pools.len(),
            r.len() == i,
            forall|j: int| 0 <= j < i ==> (#[trigger] r[j])@ == pools[j]@.name,
        decreases pools.len() - i,
    {
        r.push(pools[i].name.clone());
        i = i + 1;
    }
    assert(r.deep_view() =~= pool_names(pools.deep_view()));
    r
}

fn names_of_tiers(tiers: &Vec<TierRollup>) -> (r: Vec<String>)
    ensures
        r.deep_view() == tier_labels(tiers.deep_view()),
{
    let mut r: Vec<String> = Vec::new();
    let mut i: usize = 0;
    while i < tiers.len()
        invariant
            i <= tiers.len(),
            r.len() == i,
            forall|j: int| 0 <= j < i ==> (#[trigger] r[j])@ == tiers[j]@.tier,
        decreases tiers.len() - i,
    {
        r.push(tiers[i].tier.clone());
        i = i + 1;
    }
    assert(r.deep_view() =~= tier_labels(tiers.deep_view()));
    r
}

/// The system as a whole, with the slabs and the tiers given; nothing where
/// what it shows cannot be counted.
fn system_component(
    config: &Config,
    fed: &FedState,
    inv: &NameMap<NodeInventory>,
    tiers: &Vec<TierRollup>,
) -> (r: Option<ComponentSummary>)
    requires
        tiers.deep_view() == inventory::rollups(inv@),
        inventory::tiers_fit(inv@),
    ensures
        r is Some <==> feed_fits(config@, fed@, inv@),
        r matches Some(c) ==> c@ == system_summary(config@, fed@, inv@),
{
    let ghost want = system_summary(config@, fed@, inv@);
    let nodes: Vec<&Node> = api::nodes_in(fed);
    let total: usize = nodes.len();
    let healthy: usize = api::count_healthy(&nodes);
    let free: u64 = match free_bytes(&nodes) {
        Some(f) => f,
        None => {
            return None;
        },
    };
    let mut slabs: Vec<String> = all_slab_ids(inv);
    let ghost slab_list = slabs.deep_view();
    assert(slab_list.len() == slabs.len());
    assert(config@.pools.len() == config.pools.len());
    let volume_count: usize = match count_volumes(fed.volumes.len(), inv) {
        Some(n) => n,
        None => {
            return None;
        },
    };
    if slabs.len() > usize::MAX - config.pools.len() {
        return None;
    }
    let pools: String = text::decimal((config.pools.len() + slabs.len()) as u64);
    let volumes: String = text::decimal(volume_count as u64);
    let ratio: String = text::decimal(healthy as u64).concat("/").concat(
        text::decimal(total as u64).as_str(),
    );
    let health: Health = if total == 0 {
        Health::Idle
    } else if healthy == 0 {
        Health::Error
    } else if healthy < total {
        Health::Warn
    } else {
        Health::Healthy
    };
    let head: String = ratio.clone().concat(" nodes · ").concat(pools.as_str()).concat(
        " pools · ",
    ).concat(volumes.as_str()).concat(" volumes · ");
    let detail: Vec<Piece> = vec![
        Piece::Text(head),
        Piece::Bytes(free),
        Piece::Text(text::owned(" free · rev ").concat(text::decimal(fed.revision).as_str())),
    ];
    assert(detail.deep_view() =~= want.detail);
    let metrics: Vec<Metric> = vec![
        text_metric("nodes", ratio, None),
        text_metric("pools", pools, None),
        text_metric("volumes", volumes, tone("accent")),
        size_metric("free", free, None),
    ];
    assert(metrics.deep_view() =~= want.metrics);
    let mut pool_targets: Vec<String> = with_prefix("pool:", &names_of_pools(&config.pools));
    let ghost first = pool_targets.deep_view();
    pool_targets.append(&mut slabs);
    assert(pool_targets.deep_view() =~= first + slab_list);
    let relations: Vec<Relation> = vec![
        Relation::has_many("nodes", with_prefix("node:", &key_list(&fed.nodes))),
        Relation::has_many("pools", pool_targets),
        Relation::has_many("tiers", with_prefix("tier:", &names_of_tiers(tiers))),
    ];
    assert(relations.deep_view() =~= want.relations);
    Some(
        ComponentSummary {
            id: text::owned("system"),
            kind: text::owned("storage"),
            label: text::owned("stormstorage"),
            health,
            detail,
            metrics,
            actions: no_actions(),
            relations,
            link: None,
        },
    )
}

/// The nodes that a pool draws from have no more of anything than all nodes.
proof fn members_sum_at_most_all(pool: PoolConfigView, nodes: Seq<NodeView>)
    ensures
        api::healthy_sum(api::members_of(pool.selector, nodes), api::free_of())
            <= api::healthy_sum(nodes, api::free_of()),
    decreases nodes.len(),
{
    if nodes.len() > 0 {
        members_sum_at_most_all(pool, nodes.drop_last());
        let front = api::members_of(pool.selector, nodes.drop_last());
        assert(front.push(nodes.last()).drop_last() =~= front);
    }
}

/// The component ids of the volumes in a pool.
fn volumes_in_pool(fed: &FedState, pool: &str) -> (r: Vec<String>)
    ensures
        r.deep_view() == pool_volumes(names::in_order(fed@.volumes), pool@),
{
    let ghost all = names::in_order(fed@.volumes);
    let n: usize = fed.volumes.len();
    let mut r: Vec<String> = Vec::new();
    let mut i: usize = 0;
    assert(r.deep_view() =~= pool_volumes(all.take(0), pool@));
    while i < n
        invariant
            i <= n,
            n == fed.volumes.keys().len(),
            all == names::in_order(fed@.volumes),
            r.deep_view() == pool_volumes(all.take(i as int), pool@),
        decreases n - i,
    {
        let v: &DistVolume = fed.volumes.value_at(i);
        let ghost was = r.deep_view();
        assert(all.take(i + 1).drop_last() =~= all.take(i as int));
        assert(all.take(i + 1).last() == v@);
        if text::is_some_text(&v.pool, pool) {
            r.push(text::owned("volume:").concat(v.name.as_str()));
            assert(r.deep_view() =~= was.push("volume:"@ + v@.name));
        }
        i = i + 1;
    }
    assert(all.take(i as int) =~= all);
    r
}

/// A configured pool.
fn pool_component(pool: &PoolConfig, fed: &FedState) -> (r: ComponentSummary)
    requires
        api::healthy_sum(names::in_order(fed@.nodes), api::free_of()) <= u64::MAX,
    ensures
        r@ == pool_summary(pool@, fed@),
{
    let ghost want = pool_summary(pool@, fed@);
    let all: Vec<&Node> = api::nodes_in(fed);
    let members: Vec<&Node> = api::members(&pool.selector, &all);
    proof {
        members_sum_at_most_all(pool@, all.deep_view());
        assert(members.deep_view().len() == members.len());
    }
    let count: usize = members.len();
    let healthy: usize = api::count_healthy(&members);
    let free: u64 = match free_bytes(&members) {
        Some(f) => f,
        None => vstd::pervasive::unreached(),
    };
    let volumes: Vec<String> = volumes_in_pool(fed, pool.name.as_str());
    assert(volumes.deep_view().len() == volumes.len());
    let health: Health = if count == 0 || healthy == 0 {
        Health::Error
    } else if healthy < count {
        Health::Warn
    } else {
        Health::Healthy
    };
    let ratio: String = text::decimal(healthy as u64).concat("/").concat(
        text::decimal(count as u64).as_str(),
    );
    let head: String = ratio.clone().concat(" nodes · replicas ").concat(
        text::decimal(pool.replicas as u64).as_str(),
    ).concat(" at rung ").concat(text::quoted(pool.rung.as_str()).as_str()).concat(" · ");
    let detail: Vec<Piece> = vec![Piece::Text(head), Piece::Bytes(free), words(" free")];
    assert(detail.deep_view() =~= want.detail);
    let metrics: Vec<Metric> = vec![
        text_metric("nodes", ratio, None),
        text_metric("volumes", text::decimal(volumes.len() as u64), tone("accent")),
        size_metric("free", free, None),
    ];
    assert(metrics.deep_view() =~= want.metrics);
    let relations: Vec<Relation> = vec![
        Relation::has_many("nodes", with_prefix("node:", &api::name_list(&members))),
        Relation::has_many("volumes", volumes),
    ];
    assert(relations.deep_view() =~= want.relations);
    ComponentSummary {
        id: text::owned("pool:").concat(pool.name.as_str()),
        kind: text::owned("pool"),
        label: pool.name.clone(),
        health,
        detail,
        metrics,
        actions: no_actions(),
        relations,
        link: None,
    }
}

/// The nodes, each followed by its slabs.
fn node_components(fed: &FedState, inv: &NameMap<NodeInventory>) -> (r: Vec<ComponentSummary>)
    ensures
        r.deep_view() == node_feed(names::in_order(fed@.nodes), inv@),
{
    let ghost all = names::in_order(fed@.nodes);
    let n: usize = fed.nodes.len();
    let mut r: Vec<ComponentSummary> = Vec::new();
    let mut i: usize = 0;
    assert(r.deep_view() =~= node_feed(all.take(0), inv@));
    while i < n
        invariant
            i <= n,
            n == fed.nodes.keys().len(),
            all == names::in_order(fed@.nodes),
            r.deep_view() == node_feed(all.take(i as int), inv@),
        decreases n - i,
    {
        let node: &Node = fed.nodes.value_at(i);
        let known: Option<&NodeInventory> = inv.get(node.config.name.as_str());
        assert(all.take(i + 1).drop_last() =~= all.take(i as int));
        assert(all.take(i + 1).last() == node@);
        assert(known.deep_view() == inventory_of(inv@, node@));
        let ghost was = r.deep_view();
        r.push(node_component(node, known));
        let ghost start = was.push(node_summary(node@, known.deep_view()));
        assert(r.deep_view() =~= start);
        match known {
            Some(here) => {
                let ghost mine = slab_feed(node@, here@);
                let mut j: usize = 0;
                assert(start + mine.take(0) =~= start);
                while j < here.slabs.len()
                    invariant
                        j <= here.slabs.len(),
                        mine == slab_feed(node@, here@),
                        r.deep_view() == start + mine.take(j as int),
                    decreases here.slabs.len() - j,
                {
                    let ghost before = r.deep_view();
                    assert(here@.slabs[j as int] == here.slabs[j as int]@);
                    r.push(slab_component(node, here, &here.slabs[j]));
                    assert(r.deep_view() =~= before.push(mine[j as int]));
                    assert(start + mine.take(j + 1) =~= (start + mine.take(j as int)).push(
                        mine[j as int],
                    ));
                    j = j + 1;
                }
                assert(mine.take(j as int) =~= mine);
            },
            None => {
                assert(start + Seq::<ComponentSummaryView>::empty() =~= start);
            },
        }
        i = i + 1;
    }
    assert(all.take(i as int) =~= all);
    r
}

/// The volumes on every engine.
fn engine_components(inv: &NameMap<NodeInventory>) -> (r: Vec<ComponentSummary>)
    ensures
        r.deep_view() == engine_feed(inv@, names::sorted(inv@.dom())),
{
    let n: usize = inv.len();
    let ghost keys = inv.keys();
    let mut r: Vec<ComponentSummary> = Vec::new();
    let mut i: usize = 0;
    assert(r.deep_view() =~= engine_feed(inv@, keys.take(0)));
    while i < n
        invariant
            i <= n,
            n == keys.len(),
            keys == inv.keys(),
            r.deep_view() == engine_feed(inv@, keys.take(i as int)),
        decreases n - i,
    {
        let node: &String = inv.key_at(i);
        let here: &NodeInventory = inv.value_at(i);
        let ghost start = r.deep_view();
        let ghost mine = node_volume_feed(node@, here@);
        let mut j: usize = 0;
        assert(start + mine.take(0) =~= start);
        while j < here.volumes.len()
            invariant
                j <= here.volumes.len(),
                mine == node_volume_feed(node@, here@),
                r.deep_view() == start + mine.take(j as int),
            decreases here.volumes.len() - j,
        {
            let ghost before = r.deep_view();
            assert(here@.volumes[j as int] == here.volumes[j as int]@);
            r.push(node_volume_component(node.as_str(), &here.volumes[j]));
            assert(r.deep_view() =~= before.push(mine[j as int]));
            assert(start + mine.take(j + 1) =~= (start + mine.take(j as int)).push(
                mine[j as int],
            ));
            j = j + 1;
        }
        proof {
            assert(mine.take(j as int) =~= mine);
            assert(keys.take(i + 1).drop_last() =~= keys.take(i as int));
            assert(keys.take(i + 1).last() == node@);
        }
        i = i + 1;
    }
    assert(keys.take(i as int) =~= keys);
    r
}

fn volume_components(fed: &FedState) -> (r: Vec<ComponentSummary>)
    ensures
        r.deep_view() == volume_feed(names::in_order(fed@.volumes)),
{
    let ghost all = names::in_order(fed@.volumes);
    let n: usize = fed.volumes.len();
    let mut r: Vec<ComponentSummary> = Vec::new();
    let mut i: usize = 0;
    while i < n
        invariant
            i <= n,
            n == fed.volumes.keys().len(),
            all == names::in_order(fed@.volumes),
            r.len() == i,
            forall|j: int| 0 <= j < i ==> (#[trigger] r[j])@ == volume_summary(all[j]),
        decreases n - i,
    {
        r.push(volume_component(fed.volumes.value_at(i)));
        i = i + 1;
    }
    assert(r.deep_view() =~= volume_feed(all));
    r
}

fn pool_components(pools: &Vec<PoolConfig>, fed: &FedState) -> (r: Vec<ComponentSummary>)
    requires
        api::healthy_sum(names::in_order(fed@.nodes), api::free_of()) <= u64::MAX,
    ensures
        r.deep_view() == pool_feed(pools.deep_view(), fed@),
{
    let mut r: Vec<ComponentSummary> = Vec::new();
    let mut i: usize = 0;
    while i < pools.len()
        invariant
            i <= pools.len(),
            r.len() == i,
            api::healthy_sum(names::in_order(fed@.nodes), api::free_of()) <= u64::MAX,
            forall|j: int| 0 <= j < i ==> (#[trigger] r[j])@ == pool_summary(pools[j]@, fed@),
        decreases pools.len() - i,
    {
        r.push(pool_component(&pools[i], fed));
        i = i + 1;
    }
    assert(r.deep_view() =~= pool_feed(pools.deep_view(), fed@));
    r
}

fn tier_components(tiers: &Vec<TierRollup>) -> (r: Vec<ComponentSummary>)
    ensures
        r.deep_view() == tier_feed(tiers.deep_view()),
{
    let mut r: Vec<ComponentSummary> = Vec::new();
    let mut i: usize = 0;
    while i < tiers.len()
        invariant
            i <= tiers.len(),
            r.len() == i,
            forall|j: int| 0 <= j < i ==> (#[trigger] r[j])@ == tier_summary(tiers[j]@),
        decreases tiers.len() - i,
    {
        r.push(tier_component(&tiers[i]));
        i = i + 1;
    }
    assert(r.deep_view() =~= tier_feed(tiers.deep_view()));
    r
}

/// Puts `more` at the end of `out`.
fn extend(out: &mut Vec<ComponentSummary>, more: Vec<ComponentSummary>)
    ensures
        final(out).deep_view() == old(out).deep_view() + more.deep_view(),
{
    let mut more: Vec<ComponentSummary> = more;
    let ghost was = out.deep_view();
    let ghost new = more.deep_view();
    out.append(&mut more);
    assert(out.deep_view() =~= was + new);
}

/// The whole feed; nothing where what it shows cannot be counted.
pub fn build_checked(
    config: &Config,
    fed: &FedState,
    inventory: &NameMap<NodeInventory>,
) -> (r: Option<Vec<ComponentSummary>>)
    ensures
        r is Some <==> feed_fits(config@, fed@, inventory@),
        r matches Some(c) ==> c.deep_view() == feed(config@, fed@, inventory@),
{
    let tiers: Vec<TierRollup> = match inventory::tiers_checked(inventory) {
        Some(t) => t,
        None => {
            return None;
        },
    };
    let system: ComponentSummary = match system_component(config, fed, inventory, &tiers) {
        Some(s) => s,
        None => {
            return None;
        },
    };
    let mut out: Vec<ComponentSummary> = Vec::new();
    out.push(system);
    assert(out.deep_view() =~= seq![system_summary(config@, fed@, inventory@)]);
    extend(&mut out, pool_components(&config.pools, fed));
    extend(&mut out, tier_components(&tiers));
    extend(&mut out, node_components(fed, inventory));
    extend(&mut out, volume_components(fed));
    extend(&mut out, engine_components(inventory));
    Some(out)
}

/// The whole feed: the system, its pools, its tiers, its nodes with their
/// slabs, its volumes, and the volumes on each engine.
pub fn build(
    config: &Config,
    fed: &FedState,
    inventory: &NameMap<NodeInventory>,
) -> (r: Vec<ComponentSummary>)
    requires
        feed_fits(config@, fed@, inventory@),
    ensures
        r.deep_view() == feed(config@, fed@, inventory@),
{
    match build_checked(config, fed, inventory) {
        Some(c) => c,
        None => vstd::pervasive::unreached(),
    }
}

/// Whether a component with this id is in the feed.
pub open spec fn shown(feed: Seq<ComponentSummaryView>, id: Seq<char>) -> bool {
    exists|j: int| 0 <= j < feed.len() && (#[trigger] feed[j]).id == id
}

/// Whether every id that the component refers to is that of a component in the
/// feed.
pub open spec fn linked(c: ComponentSummaryView, feed: Seq<ComponentSummaryView>) -> bool {
    forall|r: int|
        0 <= r < c.relations.len() ==> all_shown((#[trigger] c.relations[r]).targets, feed)
}

/// Whether each of the ids is that of a component in the feed.
pub open spec fn all_shown(ids: Seq<Seq<char>>, feed: Seq<ComponentSummaryView>) -> bool {
    forall|t: int| 0 <= t < ids.len() ==> shown(feed, #[trigger] ids[t])
}

pub open spec fn all_linked(
    part: Seq<ComponentSummaryView>,
    feed: Seq<ComponentSummaryView>,
) -> bool {
    forall|i: int| 0 <= i < part.len() ==> linked(#[trigger] part[i], feed)
}

/// Whether what is observed and what is recorded fit together: every node
/// stands under its own name; inventories are of known nodes; a volume on an
/// engine is on slabs of that engine; a distributed volume has its legs on known
/// nodes, and its pool is configured.
pub open spec fn coherent(
    config: ConfigView,
    fed: FedStateView,
    inv: Map<Seq<char>, NodeInventoryView>,
) -> bool {
    &&& fed.nodes.dom().finite() && fed.volumes.dom().finite() && inv.dom().finite()
    &&& model::keyed(fed.nodes)
    &&& forall|k: Seq<char>| #[trigger] inv.contains_key(k) ==> fed.nodes.contains_key(k)
    &&& forall|k: Seq<char>, i: int|
        inv.contains_key(k) && 0 <= i < inv[k].volumes.len() ==> on_listed_slabs(
            #[trigger] inv[k].volumes[i],
            inv[k].slabs,
        )
    &&& forall|k: Seq<char>| #[trigger]
        fed.volumes.contains_key(k) ==> well_placed(config, fed, fed.volumes[k])
}

/// Whether every slab that the volume is on is one of these.
pub open spec fn on_listed_slabs(v: PlacedVolumeView, slabs: Seq<SlabView>) -> bool {
    forall|s: int| 0 <= s < v.slabs.len() ==> slab_ids(slabs).contains(#[trigger] v.slabs[s])
}

/// Placing puts every volume on slabs that the engine lists, as long as the
/// slots that are owned are on such slabs.
pub proof fn placed_on_listed_slabs(
    slabs: Seq<SlabView>,
    volumes: Seq<EngineVolumeView>,
    owners: SlotOwners,
    i: int,
)
    requires
        0 <= i < volumes.len(),
        forall|k: Seq<char>| #[trigger]
            owners.contains_key(k) ==> owners[k].finite() && owners[k].subset_of(
                slab_ids(slabs).to_set(),
            ),
    ensures
        on_listed_slabs(inventory::placed(slabs, volumes, owners)[i], slabs),
{
    let v = volumes[i];
    let ids = slab_ids(slabs);
    let (on, by) = inventory::resolved(v, volumes, slabs, owners);
    inventory::never_guessed(v, volumes, slabs, owners);
    assert forall|s: int| 0 <= s < on.len() implies ids.contains(#[trigger] on[s]) by {
        if by is Slots {
            names::sorted_holds(owners[v.id]);
            assert(on.to_set().contains(on[s]));
            assert(owners[v.id].contains(on[s]));
        } else if by is Parent {
            let a = choose|a: Seq<char>| #[trigger]
                inventory::owns_slots(owners, a) && on == names::sorted(owners[a]);
            names::sorted_holds(owners[a]);
            assert(on.to_set().contains(on[s]));
            assert(owners[a].contains(on[s]));
        } else {
            let n = choose|n: int|
                0 <= n < slabs.len() && #[trigger] slabs[n].id == on[0] && slabs[n].role == v.role
                    && on.len() == 1 && forall|j: int|
                    0 <= j < slabs.len() && #[trigger] slabs[j].role == v.role ==> j == n;
            assert(ids[n] == on[s]);
        }
    }
}

/// Whether the volume's legs are on known nodes and its pool is configured.
pub open spec fn well_placed(config: ConfigView, fed: FedStateView, v: DistVolumeView) -> bool {
    &&& forall|l: int|
        0 <= l < v.legs.len() ==> fed.nodes.contains_key((#[trigger] v.legs[l]).node)
    &&& v.pool matches Some(p) ==> pool_names(config.pools).contains(p)
}

/// Whether everything there is has a component in the feed.
spec fn all_there(
    config: ConfigView,
    fed: FedStateView,
    inv: Map<Seq<char>, NodeInventoryView>,
    feed: Seq<ComponentSummaryView>,
) -> bool {
    &&& shown(feed, "system"@)
    &&& forall|i: int|
        0 <= i < config.pools.len() ==> shown(feed, "pool:"@ + (#[trigger] config.pools[i]).name)
    &&& forall|k: Seq<char>| #[trigger] fed.nodes.contains_key(k) ==> shown(feed, "node:"@ + k)
    &&& forall|k: Seq<char>| #[trigger]
        fed.volumes.contains_key(k) ==> shown(feed, "volume:"@ + fed.volumes[k].name)
    &&& forall|k: Seq<char>, i: int|
        inv.contains_key(k) && 0 <= i < inv[k].slabs.len() ==> shown(
            feed,
            slab_pool(k, (#[trigger] inv[k].slabs[i]).id),
        ) && shown(feed, "tier:"@ + inv[k].slabs[i].tier)
    &&& forall|k: Seq<char>, i: int|
        inv.contains_key(k) && 0 <= i < inv[k].volumes.len() ==> shown(
            feed,
            node_volume(k, (#[trigger] inv[k].volumes[i]).volume.id),
        )
}

proof fn shown_in_either(
    a: Seq<ComponentSummaryView>,
    b: Seq<ComponentSummaryView>,
    id: Seq<char>,
)
    requires
        shown(a, id) || shown(b, id),
    ensures
        shown(a + b, id),
{
    if shown(a, id) {
        let j = choose|j: int| 0 <= j < a.len() && (#[trigger] a[j]).id == id;
        assert((a + b)[j].id == id);
    } else {
        let j = choose|j: int| 0 <= j < b.len() && (#[trigger] b[j]).id == id;
        assert((a + b)[a.len() + j].id == id);
    }
}

proof fn linked_in_both(
    a: Seq<ComponentSummaryView>,
    b: Seq<ComponentSummaryView>,
    feed: Seq<ComponentSummaryView>,
)
    requires
        all_linked(a, feed),
        all_linked(b, feed),
    ensures
        all_linked(a + b, feed),
{
    let all = a + b;
    assert forall|i: int| 0 <= i < all.len() implies linked(#[trigger] all[i], feed) by {
        if i < a.len() {
            assert(all[i] == a[i]);
        } else {
            assert(all[i] == b[i - a.len()]);
        }
    }
}

/// What is in a part of the feed is in the feed.
proof fn shown_in_feed(
    config: ConfigView,
    fed: FedStateView,
    inv: Map<Seq<char>, NodeInventoryView>,
    id: Seq<char>,
)
    requires
        shown(seq![system_summary(config, fed, inv)], id) || shown(pool_feed(config.pools, fed), id)
            || shown(tier_feed(inventory::rollups(inv)), id) || shown(
            node_feed(names::in_order(fed.nodes), inv),
            id,
        ) || shown(volume_feed(names::in_order(fed.volumes)), id) || shown(
            engine_feed(inv, names::sorted(inv.dom())),
            id,
        ),
    ensures
        shown(feed(config, fed, inv), id),
{
    let a = seq![system_summary(config, fed, inv)];
    let b = pool_feed(config.pools, fed);
    let c = tier_feed(inventory::rollups(inv));
    let d = node_feed(names::in_order(fed.nodes), inv);
    let e = volume_feed(names::in_order(fed.volumes));
    let f = engine_feed(inv, names::sorted(inv.dom()));
    if shown(f, id) {
        shown_in_either(a + b + c + d + e, f, id);
    } else {
        if shown(e, id) {
            shown_in_either(a + b + c + d, e, id);
        } else {
            if shown(d, id) {
                shown_in_either(a + b + c, d, id);
            } else {
                if shown(c, id) {
                    shown_in_either(a + b, c, id);
                } else {
                    shown_in_either(a, b, id);
                    shown_in_either(a + b, c, id);
                }
                shown_in_either(a + b + c, d, id);
            }
            shown_in_either(a + b + c + d, e, id);
        }
        shown_in_either(a + b + c + d + e, f, id);
    }
}

/// Each node is shown, with its slabs.
proof fn nodes_are_shown(nodes: Seq<NodeView>, inv: Map<Seq<char>, NodeInventoryView>, n: int)
    requires
        0 <= n < nodes.len(),
    ensures
        shown(node_feed(nodes, inv), "node:"@ + nodes[n].config.name),
        inv.contains_key(nodes[n].config.name) ==> forall|i: int|
            0 <= i < inv[nodes[n].config.name].slabs.len() ==> shown(
                node_feed(nodes, inv),
                slab_pool(
                    nodes[n].config.name,
                    (#[trigger] inv[nodes[n].config.name].slabs[i]).id,
                ),
            ),
    decreases nodes.len(),
{
    let name = nodes[n].config.name;
    let last = nodes.last();
    let front = node_feed(nodes.drop_last(), inv);
    let known = inventory_of(inv, last);
    let more = match known {
        Some(i) => slab_feed(last, i),
        None => Seq::empty(),
    };
    let with_node = front.push(node_summary(last, known));
    assert(with_node =~= front + seq![node_summary(last, known)]);
    if n < nodes.len() - 1 {
        nodes_are_shown(nodes.drop_last(), inv, n);
        shown_in_either(front, seq![node_summary(last, known)], "node:"@ + name);
        shown_in_either(with_node, more, "node:"@ + name);
        if inv.contains_key(name) {
            assert forall|i: int| 0 <= i < inv[name].slabs.len() implies shown(
                node_feed(nodes, inv),
                slab_pool(name, (#[trigger] inv[name].slabs[i]).id),
            ) by {
                let id = slab_pool(name, inv[name].slabs[i].id);
                shown_in_either(front, seq![node_summary(last, known)], id);
                shown_in_either(with_node, more, id);
            }
        }
    } else {
        assert(with_node[front.len() as int].id == "node:"@ + name);
        shown_in_either(with_node, more, "node:"@ + name);
        if inv.contains_key(name) {
            assert forall|i: int| 0 <= i < inv[name].slabs.len() implies shown(
                node_feed(nodes, inv),
                slab_pool(name, (#[trigger] inv[name].slabs[i]).id),
            ) by {
                let id = slab_pool(name, inv[name].slabs[i].id);
                assert(more[i].id == id);
                shown_in_either(with_node, more, id);
            }
        }
    }
}

/// Each volume on an engine is shown.
proof fn engine_volumes_are_shown(
    inv: Map<Seq<char>, NodeInventoryView>,
    nodes: Seq<Seq<char>>,
    n: int,
    i: int,
)
    requires
        0 <= n < nodes.len(),
        0 <= i < inv[nodes[n]].volumes.len(),
    ensures
        shown(engine_feed(inv, nodes), node_volume(nodes[n], inv[nodes[n]].volumes[i].volume.id)),
    decreases nodes.len(),
{
    let id = node_volume(nodes[n], inv[nodes[n]].volumes[i].volume.id);
    let front = engine_feed(inv, nodes.drop_last());
    let more = node_volume_feed(nodes.last(), inv[nodes.last()]);
    if n < nodes.len() - 1 {
        engine_volumes_are_shown(inv, nodes.drop_last(), n, i);
    } else {
        assert(more[i].id == id);
    }
    shown_in_either(front, more, id);
}

/// Everything there is has a component in the feed.
#[verifier::spinoff_prover]
proof fn feed_shows_all(
    config: ConfigView,
    fed: FedStateView,
    inv: Map<Seq<char>, NodeInventoryView>,
)
    requires
        coherent(config, fed, inv),
    ensures
        all_there(config, fed, inv, feed(config, fed, inv)),
{
    let whole = feed(config, fed, inv);
    let keys = names::sorted(fed.nodes.dom());
    let nodes = names::in_order(fed.nodes);
    let volumes = names::in_order(fed.volumes);
    let volume_keys = names::sorted(fed.volumes.dom());
    let inv_keys = names::sorted(inv.dom());
    names::sorted_holds(fed.nodes.dom());
    names::sorted_holds(fed.volumes.dom());
    names::sorted_holds(inv.dom());
    inventory::tiers_are_finite(inv);
    names::sorted_holds(inventory::tier_names(inv));
    assert(seq![system_summary(config, fed, inv)][0].id == "system"@);
    shown_in_feed(config, fed, inv, "system"@);
    assert forall|i: int| 0 <= i < config.pools.len() implies shown(
        whole,
        "pool:"@ + (#[trigger] config.pools[i]).name,
    ) by {
        assert(pool_feed(config.pools, fed)[i].id == "pool:"@ + config.pools[i].name);
        shown_in_feed(config, fed, inv, "pool:"@ + config.pools[i].name);
    }
    assert forall|k: Seq<char>| #[trigger] fed.nodes.contains_key(k) implies shown(
        whole,
        "node:"@ + k,
    ) by {
        assert(keys.to_set().contains(k));
        let n = keys.index_of(k);
        assert(nodes[n].config.name == k);
        nodes_are_shown(nodes, inv, n);
        shown_in_feed(config, fed, inv, "node:"@ + k);
    }
    assert forall|k: Seq<char>| #[trigger] fed.volumes.contains_key(k) implies shown(
        whole,
        "volume:"@ + fed.volumes[k].name,
    ) by {
        assert(volume_keys.to_set().contains(k));
        let n = volume_keys.index_of(k);
        assert(volume_feed(volumes)[n].id == "volume:"@ + fed.volumes[k].name);
        shown_in_feed(config, fed, inv, "volume:"@ + fed.volumes[k].name);
    }
    assert forall|k: Seq<char>, i: int|
        inv.contains_key(k) && 0 <= i < inv[k].slabs.len() implies shown(
        whole,
        slab_pool(k, (#[trigger] inv[k].slabs[i]).id),
    ) && shown(whole, "tier:"@ + inv[k].slabs[i].tier) by {
        assert(fed.nodes.contains_key(k));
        assert(keys.to_set().contains(k));
        let n = keys.index_of(k);
        assert(nodes[n].config.name == k);
        nodes_are_shown(nodes, inv, n);
        shown_in_feed(config, fed, inv, slab_pool(k, inv[k].slabs[i].id));
        let tier = inv[k].slabs[i].tier;
        let tiers = names::sorted(inventory::tier_names(inv));
        assert(inventory::tier_names(inv).contains(tier));
        assert(tiers.to_set().contains(tier));
        let t = tiers.index_of(tier);
        assert(tier_feed(inventory::rollups(inv))[t].id == "tier:"@ + tier);
        shown_in_feed(config, fed, inv, "tier:"@ + tier);
    }
    assert forall|k: Seq<char>, i: int|
        inv.contains_key(k) && 0 <= i < inv[k].volumes.len() implies shown(
        whole,
        node_volume(k, (#[trigger] inv[k].volumes[i]).volume.id),
    ) by {
        assert(inv_keys.to_set().contains(k));
        let n = inv_keys.index_of(k);
        engine_volumes_are_shown(inv, inv_keys, n, i);
        shown_in_feed(config, fed, inv, node_volume(k, inv[k].volumes[i].volume.id));
    }
}

/// The ids of the slabs of these nodes are all in the feed.
proof fn slab_list_shown(
    config: ConfigView,
    fed: FedStateView,
    inv: Map<Seq<char>, NodeInventoryView>,
    whole: Seq<ComponentSummaryView>,
    nodes: Seq<Seq<char>>,
)
    requires
        all_there(config, fed, inv, whole),
        forall|n: int| 0 <= n < nodes.len() ==> inv.contains_key(#[trigger] nodes[n]),
    ensures
        all_shown(feed_slabs(inv, nodes), whole),
    decreases nodes.len(),
{
    if nodes.len() > 0 {
        let front = feed_slabs(inv, nodes.drop_last());
        let last = nodes.last();
        let all = feed_slabs(inv, nodes);
        assert(forall|n: int|
            0 <= n < nodes.len() - 1 ==> #[trigger] nodes.drop_last()[n] == nodes[n]);
        slab_list_shown(config, fed, inv, whole, nodes.drop_last());
        assert(nodes[nodes.len() - 1] == last);
        assert forall|t: int| 0 <= t < all.len() implies shown(whole, #[trigger] all[t]) by {
            if t < front.len() {
                assert(all[t] == front[t]);
            } else {
                assert(all[t] == slab_pool(last, inv[last].slabs[t - front.len()].id));
            }
        }
    }
}

/// The members of a pool are nodes that are known.
proof fn members_are_nodes(
    selector: config::SelectorView,
    nodes: Seq<NodeView>,
    m: int,
) -> (n: int)
    requires
        0 <= m < api::members_of(selector, nodes).len(),
    ensures
        0 <= n < nodes.len(),
        nodes[n] == api::members_of(selector, nodes)[m],
    decreases nodes.len(),
{
    let front = api::members_of(selector, nodes.drop_last());
    if m < front.len() {
        members_are_nodes(selector, nodes.drop_last(), m)
    } else {
        nodes.len() - 1
    }
}

/// The volumes that a pool lists are volumes.
proof fn listed_are_volumes(volumes: Seq<DistVolumeView>, pool: Seq<char>, p: int) -> (n: int)
    requires
        0 <= p < pool_volumes(volumes, pool).len(),
    ensures
        0 <= n < volumes.len(),
        pool_volumes(volumes, pool)[p] == "volume:"@ + volumes[n].name,
    decreases volumes.len(),
{
    let front = pool_volumes(volumes.drop_last(), pool);
    if p < front.len() {
        listed_are_volumes(volumes.drop_last(), pool, p)
    } else {
        volumes.len() - 1
    }
}

proof fn system_is_linked(
    config: ConfigView,
    fed: FedStateView,
    inv: Map<Seq<char>, NodeInventoryView>,
    whole: Seq<ComponentSummaryView>,
)
    requires
        coherent(config, fed, inv),
        all_there(config, fed, inv, whole),
    ensures
        linked(system_summary(config, fed, inv), whole),
{
    let c = system_summary(config, fed, inv);
    let keys = names::sorted(fed.nodes.dom());
    let inv_keys = names::sorted(inv.dom());
    let slabs = feed_slabs(inv, inv_keys);
    let tiers = inventory::rollups(inv);
    names::sorted_holds(fed.nodes.dom());
    names::sorted_holds(inv.dom());
    inventory::tiers_are_finite(inv);
    names::sorted_holds(inventory::tier_names(inv));
    let nodes = prefixed("node:"@, keys);
    assert forall|t: int| 0 <= t < nodes.len() implies shown(whole, #[trigger] nodes[t]) by {
        assert(keys.to_set().contains(keys[t]));
        assert(fed.nodes.contains_key(keys[t]));
    }
    assert forall|n: int| 0 <= n < inv_keys.len() implies inv.contains_key(
        #[trigger] inv_keys[n],
    ) by {
        assert(inv_keys.to_set().contains(inv_keys[n]));
    }
    slab_list_shown(config, fed, inv, whole, inv_keys);
    let named = prefixed("pool:"@, pool_names(config.pools));
    let pools = named + slabs;
    assert forall|t: int| 0 <= t < pools.len() implies shown(whole, #[trigger] pools[t]) by {
        if t < named.len() {
            assert(pools[t] == "pool:"@ + config.pools[t].name);
        } else {
            assert(pools[t] == slabs[t - named.len()]);
        }
    }
    let sums = prefixed("tier:"@, tier_labels(tiers));
    assert forall|t: int| 0 <= t < sums.len() implies shown(whole, #[trigger] sums[t]) by {
        let labels = names::sorted(inventory::tier_names(inv));
        assert(labels.to_set().contains(labels[t]));
        assert(inventory::tier_names(inv).contains(labels[t]));
        let (k, i) = choose|k: Seq<char>, i: int|
            inv.contains_key(k) && 0 <= i < inv[k].slabs.len() && (
            #[trigger] inv[k].slabs[i]).tier == labels[t];
        assert(sums[t] == "tier:"@ + inv[k].slabs[i].tier);
    }
    assert(c.relations[0].targets == nodes);
    assert(c.relations[1].targets == pools);
    assert(c.relations[2].targets == sums);
}

proof fn pools_are_linked(
    config: ConfigView,
    fed: FedStateView,
    inv: Map<Seq<char>, NodeInventoryView>,
    whole: Seq<ComponentSummaryView>,
)
    requires
        coherent(config, fed, inv),
        all_there(config, fed, inv, whole),
    ensures
        all_linked(pool_feed(config.pools, fed), whole),
{
    let part = pool_feed(config.pools, fed);
    let keys = names::sorted(fed.nodes.dom());
    let nodes = names::in_order(fed.nodes);
    let volume_keys = names::sorted(fed.volumes.dom());
    let volumes = names::in_order(fed.volumes);
    names::sorted_holds(fed.nodes.dom());
    names::sorted_holds(fed.volumes.dom());
    assert forall|i: int| 0 <= i < part.len() implies linked(#[trigger] part[i], whole) by {
        let pool = config.pools[i];
        let members = api::members_of(pool.selector, nodes);
        let ids = prefixed("node:"@, api::names_of(members));
        assert forall|t: int| 0 <= t < ids.len() implies shown(whole, #[trigger] ids[t]) by {
            let n = members_are_nodes(pool.selector, nodes, t);
            assert(keys.to_set().contains(keys[n]));
            assert(fed.nodes.contains_key(keys[n]));
            assert(ids[t] == "node:"@ + keys[n]);
        }
        let listed = pool_volumes(volumes, pool.name);
        assert forall|t: int| 0 <= t < listed.len() implies shown(whole, #[trigger] listed[t]) by {
            let n = listed_are_volumes(volumes, pool.name, t);
            assert(volume_keys.to_set().contains(volume_keys[n]));
            assert(fed.volumes.contains_key(volume_keys[n]));
        }
        assert(part[i].relations[0].targets == ids);
        assert(part[i].relations[1].targets == listed);
    }
}

proof fn tiers_are_linked(
    config: ConfigView,
    fed: FedStateView,
    inv: Map<Seq<char>, NodeInventoryView>,
    whole: Seq<ComponentSummaryView>,
)
    requires
        coherent(config, fed, inv),
        all_there(config, fed, inv, whole),
    ensures
        all_linked(tier_feed(inventory::rollups(inv)), whole),
{
    let part = tier_feed(inventory::rollups(inv));
    let keys = names::sorted(inv.dom());
    names::sorted_holds(inv.dom());
    assert forall|i: int| 0 <= i < part.len() implies linked(#[trigger] part[i], whole) by {
        let tier = names::sorted(inventory::tier_names(inv))[i];
        let slabs = inventory::all_slabs(inv, keys, tier);
        let ids = prefixed("pool:"@, slabs);
        assert forall|t: int| 0 <= t < ids.len() implies shown(whole, #[trigger] ids[t]) by {
            let at = inventory::tier_slabs_exist(inv, keys, tier, t);
            let k = keys[at.0];
            assert(keys.to_set().contains(k));
            assert(inv.contains_key(k));
            assert(ids[t] =~= slab_pool(k, inv[k].slabs[at.1].id));
        }
        assert(part[i].relations[0].targets == ids);
    }
}

proof fn slabs_are_linked(
    config: ConfigView,
    fed: FedStateView,
    inv: Map<Seq<char>, NodeInventoryView>,
    whole: Seq<ComponentSummaryView>,
    node: NodeView,
)
    requires
        coherent(config, fed, inv),
        all_there(config, fed, inv, whole),
        fed.nodes.contains_key(node.config.name),
        inv.contains_key(node.config.name),
    ensures
        all_linked(slab_feed(node, inv[node.config.name]), whole),
{
    let name = node.config.name;
    let here = inv[name];
    let part = slab_feed(node, here);
    assert forall|i: int| 0 <= i < part.len() implies linked(#[trigger] part[i], whole) by {
        let slab = here.slabs[i];
        let on = inventory::on_slab(here.volumes, slab.id);
        let vols = slab_volumes(name, here, slab);
        let wanted = |v: PlacedVolumeView| v.slabs.contains(slab.id);
        assert forall|t: int| 0 <= t < vols.len() implies shown(whole, #[trigger] vols[t]) by {
            here.volumes.lemma_filter_contains_rev(wanted, on[t]);
            let n = here.volumes.index_of(on[t]);
            assert(vols[t] == node_volume(name, inv[name].volumes[n].volume.id));
        }
        let c = part[i];
        assert(inv[name].slabs[i] == slab);
        assert(c.relations[0].targets == seq!["node:"@ + name]);
        assert(c.relations[1].targets == seq!["tier:"@ + slab.tier]);
        assert(c.relations[2].targets == vols);
    }
}

proof fn nodes_are_linked(
    config: ConfigView,
    fed: FedStateView,
    inv: Map<Seq<char>, NodeInventoryView>,
    whole: Seq<ComponentSummaryView>,
    nodes: Seq<NodeView>,
)
    requires
        coherent(config, fed, inv),
        all_there(config, fed, inv, whole),
        forall|n: int|
            0 <= n < nodes.len() ==> fed.nodes.contains_key((#[trigger] nodes[n]).config.name),
    ensures
        all_linked(node_feed(nodes, inv), whole),
    decreases nodes.len(),
{
    if nodes.len() > 0 {
        let last = nodes.last();
        let name = last.config.name;
        let known = inventory_of(inv, last);
        let front = node_feed(nodes.drop_last(), inv);
        let c = node_summary(last, known);
        assert(forall|n: int|
            0 <= n < nodes.len() - 1 ==> #[trigger] nodes.drop_last()[n] == nodes[n]);
        assert(nodes[nodes.len() - 1] == last);
        nodes_are_linked(config, fed, inv, whole, nodes.drop_last());
        assert(c.relations[0].targets == seq!["system"@]);
        assert forall|t: int| 0 <= t < c.relations[1].targets.len() implies shown(
            whole,
            #[trigger] c.relations[1].targets[t],
        ) by {
            assert(c.relations[1].targets[t] == slab_pool(name, inv[name].slabs[t].id));
        }
        assert(linked(c, whole));
        assert(front.push(c) =~= front + seq![c]);
        assert(all_linked(seq![c], whole));
        linked_in_both(front, seq![c], whole);
        if inv.contains_key(name) {
            slabs_are_linked(config, fed, inv, whole, last);
            linked_in_both(front.push(c), slab_feed(last, inv[name]), whole);
        } else {
            linked_in_both(front.push(c), Seq::empty(), whole);
        }
    }
}

proof fn volumes_are_linked(
    config: ConfigView,
    fed: FedStateView,
    inv: Map<Seq<char>, NodeInventoryView>,
    whole: Seq<ComponentSummaryView>,
)
    requires
        coherent(config, fed, inv),
        all_there(config, fed, inv, whole),
    ensures
        all_linked(volume_feed(names::in_order(fed.volumes)), whole),
{
    let volumes = names::in_order(fed.volumes);
    let keys = names::sorted(fed.volumes.dom());
    let part = volume_feed(volumes);
    names::sorted_holds(fed.volumes.dom());
    assert forall|i: int| 0 <= i < part.len() implies linked(#[trigger] part[i], whole) by {
        let v = volumes[i];
        assert(keys.to_set().contains(keys[i]));
        assert(fed.volumes.contains_key(keys[i]));
        let ids = leg_targets(v.legs);
        assert forall|t: int| 0 <= t < ids.len() implies shown(whole, #[trigger] ids[t]) by {
            assert(fed.nodes.contains_key(v.legs[t].node));
        }
        assert(part[i].relations[0].targets == ids);
        if let Some(p) = v.pool {
            let n = pool_names(config.pools).index_of(p);
            assert(config.pools[n].name == p);
            assert(part[i].relations[1].targets == seq!["pool:"@ + p]);
        }
    }
}

proof fn engine_volumes_are_linked(
    config: ConfigView,
    fed: FedStateView,
    inv: Map<Seq<char>, NodeInventoryView>,
    whole: Seq<ComponentSummaryView>,
    nodes: Seq<Seq<char>>,
)
    requires
        coherent(config, fed, inv),
        all_there(config, fed, inv, whole),
        forall|n: int| 0 <= n < nodes.len() ==> inv.contains_key(#[trigger] nodes[n]),
    ensures
        all_linked(engine_feed(inv, nodes), whole),
    decreases nodes.len(),
{
    if nodes.len() > 0 {
        let k = nodes.last();
        let here = inv[k];
        let part = node_volume_feed(k, here);
        assert(forall|n: int|
            0 <= n < nodes.len() - 1 ==> #[trigger] nodes.drop_last()[n] == nodes[n]);
        assert(nodes[nodes.len() - 1] == k);
        engine_volumes_are_linked(config, fed, inv, whole, nodes.drop_last());
        assert(fed.nodes.contains_key(k));
        assert forall|i: int| 0 <= i < part.len() implies linked(#[trigger] part[i], whole) by {
            let v = inv[k].volumes[i];
            let c = part[i];
            assert(on_listed_slabs(v, here.slabs));
            assert(c.relations[0].targets == seq!["node:"@ + k]);
            if v.slabs.len() > 0 {
                let ids = slab_pool_ids(k, v.slabs);
                assert forall|t: int| 0 <= t < ids.len() implies shown(
                    whole,
                    #[trigger] ids[t],
                ) by {
                    assert(slab_ids(here.slabs).contains(v.slabs[t]));
                    let n = slab_ids(here.slabs).index_of(v.slabs[t]);
                    assert(ids[t] == slab_pool(k, inv[k].slabs[n].id));
                }
                assert(c.relations[1].targets == ids);
            }
        }
        linked_in_both(engine_feed(inv, nodes.drop_last()), part, whole);
    }
}

/// The feed can be followed: every id that a component refers to is that of a
/// component in the feed, where what is observed and what is recorded fit
/// together.
pub proof fn relations_lead_to_components(
    config: ConfigView,
    fed: FedStateView,
    inv: Map<Seq<char>, NodeInventoryView>,
)
    requires
        coherent(config, fed, inv),
    ensures
        all_linked(feed(config, fed, inv), feed(config, fed, inv)),
{
    let whole = feed(config, fed, inv);
    let keys = names::sorted(fed.nodes.dom());
    let nodes = names::in_order(fed.nodes);
    let inv_keys = names::sorted(inv.dom());
    names::sorted_holds(fed.nodes.dom());
    names::sorted_holds(inv.dom());
    feed_shows_all(config, fed, inv);
    system_is_linked(config, fed, inv, whole);
    pools_are_linked(config, fed, inv, whole);
    tiers_are_linked(config, fed, inv, whole);
    assert forall|n: int| 0 <= n < nodes.len() implies fed.nodes.contains_key(
        (#[trigger] nodes[n]).config.name,
    ) by {
        assert(keys.to_set().contains(keys[n]));
        assert(fed.nodes.contains_key(keys[n]));
    }
    nodes_are_linked(config, fed, inv, whole, nodes);
    volumes_are_linked(config, fed, inv, whole);
    assert forall|n: int| 0 <= n < inv_keys.len() implies inv.contains_key(
        #[trigger] inv_keys[n],
    ) by {
        assert(inv_keys.to_set().contains(inv_keys[n]));
    }
    engine_volumes_are_linked(config, fed, inv, whole, inv_keys);
    let a = seq![system_summary(config, fed, inv)];
    let b = pool_feed(config.pools, fed);
    let c = tier_feed(inventory::rollups(inv));
    let d = node_feed(nodes, inv);
    let e = volume_feed(names::in_order(fed.volumes));
    linked_in_both(a, b, whole);
    linked_in_both(a + b, c, whole);
    linked_in_both(a + b + c, d, whole);
    linked_in_both(a + b + c + d, e, whole);
    linked_in_both(a + b + c + d + e, engine_feed(inv, inv_keys), whole);
}

} // verus!
