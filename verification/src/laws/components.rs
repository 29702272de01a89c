//! What the feed shows of everything there is.

use crate::api;
use crate::components;
use crate::components::{ComponentSummaryView, Health, PieceView};
use crate::config::{ConfigView, PoolConfigView};
use crate::double;
use crate::inventory;
use crate::inventory::{NodeInventoryView, PlacedBy, PlacedVolumeView, SlabView, TierRollupView};
use crate::laws::api as api_laws;
use crate::laws::config as config_laws;
use crate::laws::lists;
use crate::laws::lists::{chained, kept, sum};
use crate::model::{AssemblyState, DistVolumeView, FedStateView, LegState, LegView, NodeView};
use crate::names;
use crate::text;
use vstd::arithmetic::power2::*;
use vstd::prelude::*;

verus! {

/// The bits of the double nearest to a tenth.
proof fn tenth_as_a_double()
    ensures
        double::ratio_bits(1, 10) == 0x3FB9_9999_9999_999A,
{
    lemma2_to64();
    lemma2_to64_rest();
    double::small_wholes_are_exact(1);
    double::small_wholes_are_exact(10);
    assert(pow2(56) == 0x100_0000_0000_0000);
    assert(double::aligned(1, 10, 56, 0));
    let (u, d) = choose|u: nat, d: nat| double::aligned(1, 10, u, d);
    double::aligned_unique(1, 10, 56, 0, u, d);
}

/// A slab of a healthy node warns exactly where less than a tenth of it is
/// free, whatever its size, by as much as a double can tell; one of unknown
/// size always does, and one of an unhealthy node is in error.
pub proof fn slab_warns_below_a_tenth(healthy: bool, s: SlabView)
    ensures
        ({
            let h = components::slab_health(healthy, s);
            let exact = s.free_bytes < 0x20_0000_0000_0000 && 0 < s.total_bytes
                < 0x20_0000_0000_0000;
            &&& !healthy ==> h == Health::Error
            &&& healthy && s.total_bytes == 0 ==> h == Health::Warn
            &&& healthy && exact && 10 * s.free_bytes >= s.total_bytes ==> h == Health::Healthy
            &&& healthy && exact && 0x10_0000_0000_0001 * (10 * s.free_bytes)
                < 0x10_0000_0000_0000 * s.total_bytes ==> h == Health::Warn
            &&& healthy && s.total_bytes > 0 && 0x4_0000_0000_0001 * (10 * s.free_bytes)
                < 0x4_0000_0000_0000 * s.total_bytes ==> h == Health::Warn
            &&& healthy && s.total_bytes > 0 && 0x4_0000_0000_0001 * s.total_bytes
                < 0x4_0000_0000_0000 * (10 * s.free_bytes) ==> h == Health::Healthy
        }),
{
    tenth_as_a_double();
    let (f, t) = (s.free_bytes, s.total_bytes);
    if f < 0x20_0000_0000_0000 && 0 < t < 0x20_0000_0000_0000 {
        if 10 * f >= t {
            double::ratio_bits_grow(1, 10, f, t);
        }
        if 0x10_0000_0000_0001 * (10 * f) < 0x10_0000_0000_0000 * t {
            double::ratio_bits_tell_apart(f, t, 1, 10);
        }
    }
    if t > 0 && 0x4_0000_0000_0001 * (10 * f) < 0x4_0000_0000_0000 * t {
        double::ratio_bits_tell_large_apart(f, t, 1, 10);
    }
    if t > 0 && 0x4_0000_0000_0001 * t < 0x4_0000_0000_0000 * (10 * f) {
        double::ratio_bits_tell_large_apart(1, 10, f, t);
    }
}

/// What is shown of a slab: it is the pool of its node and its tier, with the
/// volumes that are on it, and its own figures.
pub proof fn slab_is_shown(node: NodeView, inv: NodeInventoryView, s: SlabView)
    ensures
        ({
            let c = components::slab_summary(node, inv, s);
            let name = node.config.name;
            let volumes = kept(
                inv.volumes,
                |v: PlacedVolumeView| v.slabs.contains(s.id),
                |v: PlacedVolumeView| "nvol:"@ + name + "/"@ + v.volume.id,
            );
            &&& c.id == "pool:"@ + name + "/"@ + s.id
            &&& c.kind == "pool"@
            &&& c.label == name + " "@ + s.role + " "@ + s.tier + " ("@ + text::shortened(s.id)
                + ")"@
            &&& c.detail == seq![
                PieceView::Bytes(s.free_bytes),
                PieceView::Text(" of "@),
                PieceView::Bytes(s.total_bytes),
                PieceView::Text(" free · "@),
                PieceView::Bytes(s.allocated_bytes()),
                PieceView::Text(
                    " used · "@ + text::dec(volumes.len()) + " volumes · tier "@ + s.tier
                        + " · role "@ + s.role + " · "@ + s.domain,
                ),
            ]
            &&& c.health == components::slab_health(node.status.healthy, s)
            &&& c.relations.len() == 3
            &&& c.relations[0].targets == seq!["node:"@ + name]
            &&& c.relations[1].targets == seq!["tier:"@ + s.tier]
            &&& c.relations[2].targets == volumes
            &&& c.metrics.len() == 6
            &&& c.metrics[0].value == PieceView::Bytes(s.free_bytes)
            &&& c.metrics[1].value == PieceView::Bytes(s.total_bytes)
            &&& c.metrics[2].value == PieceView::Bytes(s.allocated_bytes())
            &&& c.metrics[3].value == PieceView::Text(text::dec(volumes.len()))
            &&& c.metrics[4].value == PieceView::Text(s.tier)
            &&& c.metrics[5].value == PieceView::Text(s.role)
            &&& c.actions.len() == 0
        }),
{
    let name = node.config.name;
    let p = |v: PlacedVolumeView| v.slabs.contains(s.id);
    let f = |v: PlacedVolumeView| "nvol:"@ + name + "/"@ + v.volume.id;
    assert(components::slab_volumes(name, inv, s) =~= kept(inv.volumes, p, f));
}

/// What is shown of a tier: the slabs in it as its pools, and its figures.
pub proof fn tier_is_shown(t: TierRollupView)
    ensures
        ({
            let c = components::tier_summary(t);
            &&& c.id == "tier:"@ + t.tier
            &&& c.kind == "tier"@
            &&& c.label == "tier "@ + t.tier
            &&& c.detail == seq![
                PieceView::Bytes(t.free_bytes),
                PieceView::Text(" of "@),
                PieceView::Bytes(t.total_bytes),
                PieceView::Text(
                    " free · "@ + text::dec(t.slabs.len()) + " slab(s) on "@ + text::dec(
                        t.nodes.len(),
                    ) + " node(s) · "@ + text::dec(t.volumes as nat) + " volumes"@,
                ),
            ]
            &&& c.health == Health::Healthy
            &&& c.relations.len() == 1
            &&& c.relations[0].targets == t.slabs.map_values(|s: Seq<char>| "pool:"@ + s)
            &&& c.metrics.len() == 4
            &&& c.metrics[0].value == PieceView::Bytes(t.free_bytes)
            &&& c.metrics[1].value == PieceView::Bytes(t.total_bytes)
            &&& c.metrics[2].value == PieceView::Bytes(t.allocated_bytes)
            &&& c.metrics[3].value == PieceView::Text(text::dec(t.volumes as nat))
        }),
{
    assert(components::prefixed("pool:"@, t.slabs) =~= t.slabs.map_values(
        |s: Seq<char>| "pool:"@ + s,
    ));
}

/// What is shown of a volume on an engine: its node, the slabs that it is on as
/// its pools, its health in the engine's word for it, and its figures.
pub proof fn engine_volume_is_shown(node: Seq<char>, v: PlacedVolumeView)
    ensures
        ({
            let c = components::node_volume_summary(node, v);
            let word = v.volume.health;
            &&& c.id == "nvol:"@ + node + "/"@ + v.volume.id
            &&& c.label == v.volume.name
            &&& c.detail == seq![
                PieceView::Bytes(v.volume.virtual_size_bytes),
                PieceView::Text(
                    " · "@ + node + " · "@ + (if v.volume.redundancy.len() == 0 {
                        "none"@
                    } else {
                        v.volume.redundancy
                    }) + " · "@ + (if v.placed_by == PlacedBy::Unknown {
                        "slab unknown"@
                    } else {
                        "on "@ + text::joined(
                            v.slabs.map_values(|s: Seq<char>| text::shortened(s)),
                            "+"@,
                        )
                    }) + " · "@ + (if v.volume.owner is Some {
                        (v.volume.owner->0).describe()
                    } else if v.volume.sealed {
                        "sealed"@
                    } else {
                        "unowned"@
                    }),
                ),
            ]
            &&& c.health == Health::Healthy <==> word == "healthy"@
            &&& c.health == Health::Warn <==> word == "degraded"@
            &&& c.health == Health::Error <==> word == "failed"@
            &&& c.health == Health::Unknown <==> word != "healthy"@ && word != "degraded"@ && word
                != "failed"@
            &&& c.relations.len() == if v.slabs.len() > 0 {
                2
            } else {
                1int
            }
            &&& c.relations[0].targets == seq!["node:"@ + node]
            &&& v.slabs.len() > 0 ==> c.relations[1].targets == v.slabs.map_values(
                |s: Seq<char>| "pool:"@ + node + "/"@ + s,
            )
            &&& c.metrics[0].value == PieceView::Bytes(v.volume.virtual_size_bytes)
            &&& c.metrics[1].value == PieceView::Bytes(v.volume.allocated_bytes)
            &&& c.metrics[2].value == PieceView::Text(v.volume.role)
            &&& c.metrics.len() == if v.volume.sealed {
                4
            } else {
                3int
            }
            &&& c.actions.len() == 0
        }),
{
    reveal_strlit("healthy");
    reveal_strlit("degraded");
    reveal_strlit("failed");
    assert("healthy"@[0] == 'h' && "degraded"@[0] == 'd' && "failed"@[0] == 'f');
    assert(components::all_shortened(v.slabs) =~= v.slabs.map_values(
        |s: Seq<char>| text::shortened(s),
    ));
    assert(components::slab_pool_ids(node, v.slabs) =~= v.slabs.map_values(
        |s: Seq<char>| "pool:"@ + node + "/"@ + s,
    ));
}

/// What is shown of a node: it belongs to the system, its slabs are its pools
/// where they are known, it is in error where it is not healthy, and its
/// figures are those it last reported.
pub proof fn node_is_shown(n: NodeView, inv: Option<NodeInventoryView>)
    ensures
        ({
            let c = components::node_summary(n, inv);
            &&& c.id == "node:"@ + n.config.name
            &&& c.kind == "node"@
            &&& c.label == n.config.name
            &&& c.detail == seq![
                PieceView::Text(
                    text::joined(
                        seq![n.config.engine_url] + (match n.config.tier {
                            Some(t) => seq!["tier "@ + t],
                            None => Seq::empty(),
                        }) + seq![
                            if n.status.healthy {
                                "reachable"@
                            } else {
                                "unreachable"@
                            },
                        ],
                        " · "@,
                    ),
                ),
            ]
            &&& c.health == if n.status.healthy {
                Health::Healthy
            } else {
                Health::Error
            }
            &&& c.relations.len() == 2
            &&& c.relations[0].targets == seq!["system"@]
            &&& c.relations[1].targets == match inv {
                Some(i) => i.slabs.map_values(
                    |s: SlabView| "pool:"@ + n.config.name + "/"@ + s.id,
                ),
                None => Seq::empty(),
            }
            &&& c.metrics.len() == 3
            &&& c.metrics[0].value == PieceView::Bytes(n.status.free_bytes)
            &&& c.metrics[1].value == PieceView::Bytes(n.status.total_bytes)
            &&& c.metrics[2].value == PieceView::Text(text::dec(n.status.volumes as nat))
        }),
{
    let state = if n.status.healthy {
        "reachable"@
    } else {
        "unreachable"@
    };
    match n.config.tier {
        Some(t) => {
            assert(seq![n.config.engine_url, "tier "@ + t, state] =~= seq![n.config.engine_url]
                + seq!["tier "@ + t] + seq![state]);
        },
        None => {
            assert(seq![n.config.engine_url, state] =~= seq![n.config.engine_url] + Seq::empty()
                + seq![state]);
        },
    }
    if let Some(i) = inv {
        assert(components::slab_pool_ids(n.config.name, components::slab_ids(i.slabs))
            =~= i.slabs.map_values(|s: SlabView| "pool:"@ + n.config.name + "/"@ + s.id));
    }
}

/// What is shown of a distributed volume: the nodes of its legs, its pool where
/// it has one, in error where a leg failed, whether it is assembled, and the
/// one action that deletes it.
pub proof fn volume_is_shown(v: DistVolumeView)
    ensures
        ({
            let c = components::volume_summary(v);
            &&& c.id == "volume:"@ + v.name
            &&& c.kind == "volume"@
            &&& c.label == v.name
            &&& c.detail == seq![
                PieceView::Bytes(v.size_bytes),
                PieceView::Text(
                    " · "@ + text::dec(v.legs.len()) + " leg(s) at rung "@ + text::quoted_text(
                        v.rung,
                    ) + (match v.pool {
                        Some(p) => " · pool "@ + p,
                        None => ""@,
                    }),
                ),
            ]
            &&& c.health == Health::Error <==> exists|i: int|
                0 <= i < v.legs.len() && (#[trigger] v.legs[i]).state == LegState::Failed
            &&& c.health == Health::Error || c.health == Health::Healthy
            &&& c.relations[0].targets == v.legs.map_values(|l: LegView| "node:"@ + l.node)
            &&& v.pool is None ==> c.relations.len() == 1
            &&& v.pool matches Some(p) ==> c.relations.len() == 2 && c.relations[1].targets == seq![
                "pool:"@ + p,
            ]
            &&& c.metrics[0].value == PieceView::Bytes(v.size_bytes)
            &&& c.metrics[1].value == PieceView::Text(text::dec(v.legs.len()))
            &&& v.assembly == AssemblyState::SingleLeg ==> c.metrics.len() == 2
            &&& v.assembly == AssemblyState::Assembled ==> c.metrics.len() == 3
                && c.metrics[2].value == PieceView::Text("raid1"@)
            &&& v.assembly == AssemblyState::PendingEngineSupport ==> c.metrics.len() == 3
                && c.metrics[2].value == PieceView::Text("pending"@)
            &&& c.actions.len() == 1
            &&& c.actions[0].method == "DELETE"@
            &&& c.actions[0].path == "/api/v1/volumes/"@ + v.name
            &&& c.actions[0].danger && c.actions[0].enabled
        }),
{
    assert(components::leg_targets(v.legs) =~= v.legs.map_values(
        |l: LegView| "node:"@ + l.node,
    ));
}

proof fn pool_volumes_are_kept(volumes: Seq<DistVolumeView>, pool: Seq<char>)
    ensures
        components::pool_volumes(volumes, pool) == kept(
            volumes,
            |v: DistVolumeView| v.pool == Some(pool),
            |v: DistVolumeView| "volume:"@ + v.name,
        ),
    decreases volumes.len(),
{
    let p = |v: DistVolumeView| v.pool == Some(pool);
    let f = |v: DistVolumeView| "volume:"@ + v.name;
    if volumes.len() == 0 {
        lists::kept_of_none(volumes, p, f);
    } else {
        pool_volumes_are_kept(volumes.drop_last(), pool);
        lists::kept_of_more(volumes, p, f);
    }
}

/// What is shown of a configured pool: the nodes that its selector takes and
/// the volumes that name it, in error where none of its nodes is healthy and
/// with a warning where some are not, and the free bytes of the healthy ones.
pub proof fn pool_is_shown(pool: PoolConfigView, fed: FedStateView)
    requires
        api::healthy_sum(names::in_order(fed.nodes), api::free_of()) <= u64::MAX,
    ensures
        ({
            let c = components::pool_summary(pool, fed);
            let members = names::in_order(fed.nodes).filter(
                |n: NodeView| config_laws::takes(pool.selector, n.config),
            );
            let good = members.filter(|n: NodeView| n.status.healthy).len();
            let volumes = kept(
                names::in_order(fed.volumes),
                |v: DistVolumeView| v.pool == Some(pool.name),
                |v: DistVolumeView| "volume:"@ + v.name,
            );
            let free = sum(
                kept(
                    members,
                    |n: NodeView| n.status.healthy,
                    |n: NodeView| n.status.free_bytes as nat,
                ),
            );
            &&& c.id == "pool:"@ + pool.name
            &&& c.kind == "pool"@
            &&& c.label == pool.name
            &&& c.detail == seq![
                PieceView::Text(
                    text::dec(good) + "/"@ + text::dec(members.len()) + " nodes · replicas "@
                        + text::dec(pool.replicas as nat) + " at rung "@ + text::quoted_text(
                        pool.rung,
                    ) + " · "@,
                ),
                PieceView::Bytes(free as u64),
                PieceView::Text(" free"@),
            ]
            &&& good == 0 ==> c.health == Health::Error
            &&& 0 < good < members.len() ==> c.health == Health::Warn
            &&& 0 < good == members.len() ==> c.health == Health::Healthy
            &&& c.relations.len() == 2
            &&& c.relations[0].targets == members.map_values(
                |n: NodeView| "node:"@ + n.config.name,
            )
            &&& c.relations[1].targets == volumes
            &&& c.metrics.len() == 3
            &&& c.metrics[0].value == PieceView::Text(
                text::dec(good) + "/"@ + text::dec(members.len()),
            )
            &&& c.metrics[1].value == PieceView::Text(text::dec(volumes.len()))
            &&& c.metrics[2].value == PieceView::Bytes(free as u64)
        }),
{
    let nodes = names::in_order(fed.nodes);
    let members = nodes.filter(|n: NodeView| config_laws::takes(pool.selector, n.config));
    api_laws::members_are_kept(pool, nodes);
    api_laws::healthy_are_counted(members);
    api::healthy_at_most_all(members);
    api_laws::healthy_are_summed(members, api::free_of());
    pool_volumes_are_kept(names::in_order(fed.volumes), pool.name);
    assert(components::prefixed("node:"@, api::names_of(members)) =~= members.map_values(
        |n: NodeView| "node:"@ + n.config.name,
    ));
}

proof fn feed_slabs_are_chained(
    inv: Map<Seq<char>, NodeInventoryView>,
    nodes: Seq<Seq<char>>,
)
    ensures
        components::feed_slabs(inv, nodes) == chained(
            nodes.map_values(
                |n: Seq<char>| inv[n].slabs.map_values(|s: SlabView| "pool:"@ + n + "/"@ + s.id),
            ),
        ),
        components::feed_volumes(inv, nodes) == sum(
            nodes.map_values(|n: Seq<char>| inv[n].volumes.len()),
        ),
    decreases nodes.len(),
{
    let f = |n: Seq<char>| inv[n].slabs.map_values(|s: SlabView| "pool:"@ + n + "/"@ + s.id);
    let g = |n: Seq<char>| inv[n].volumes.len();
    if nodes.len() > 0 {
        feed_slabs_are_chained(inv, nodes.drop_last());
        let n = nodes.last();
        assert(nodes.map_values(f).drop_last() =~= nodes.drop_last().map_values(f));
        assert(nodes.map_values(g).drop_last() =~= nodes.drop_last().map_values(g));
        assert(components::slab_pool_ids(n, components::slab_ids(inv[n].slabs)) =~= f(n));
    }
}

/// What is shown of the whole: every node, every pool and every slab, and every
/// tier; how many of the nodes are healthy, how many pools and volumes there
/// are, those on the engines included, and the free bytes of the healthy nodes.
pub proof fn system_is_shown(
    config: ConfigView,
    fed: FedStateView,
    inv: Map<Seq<char>, NodeInventoryView>,
)
    requires
        components::feed_fits(config, fed, inv),
    ensures
        ({
            let c = components::system_summary(config, fed, inv);
            let nodes = names::in_order(fed.nodes);
            let keys = names::sorted(inv.dom());
            let good = nodes.filter(|n: NodeView| n.status.healthy).len();
            let slabs = chained(
                keys.map_values(
                    |n: Seq<char>|
                        inv[n].slabs.map_values(|s: SlabView| "pool:"@ + n + "/"@ + s.id),
                ),
            );
            let free = sum(
                kept(
                    nodes,
                    |n: NodeView| n.status.healthy,
                    |n: NodeView| n.status.free_bytes as nat,
                ),
            );
            &&& c.id == "system"@
            &&& c.detail == seq![
                PieceView::Text(
                    text::dec(good) + "/"@ + text::dec(nodes.len()) + " nodes · "@ + text::dec(
                        (config.pools.len() + slabs.len()) as nat,
                    ) + " pools · "@ + text::dec(
                        names::sorted(fed.volumes.dom()).len() + sum(
                            keys.map_values(|n: Seq<char>| inv[n].volumes.len()),
                        ),
                    ) + " volumes · "@,
                ),
                PieceView::Bytes(free as u64),
                PieceView::Text(" free · rev "@ + text::dec(fed.revision as nat)),
            ]
            &&& nodes.len() == 0 ==> c.health == Health::Idle
            &&& nodes.len() > 0 && good == 0 ==> c.health == Health::Error
            &&& 0 < good < nodes.len() ==> c.health == Health::Warn
            &&& 0 < good == nodes.len() ==> c.health == Health::Healthy
            &&& c.relations.len() == 3
            &&& c.relations[0].targets == names::sorted(fed.nodes.dom()).map_values(
                |n: Seq<char>| "node:"@ + n,
            )
            &&& c.relations[1].targets == config.pools.map_values(
                |p: PoolConfigView| "pool:"@ + p.name,
            ) + slabs
            &&& c.relations[2].targets == inventory::rollups(inv).map_values(
                |t: TierRollupView| "tier:"@ + t.tier,
            )
            &&& c.metrics.len() == 4
            &&& c.metrics[0].value == PieceView::Text(
                text::dec(good) + "/"@ + text::dec(nodes.len()),
            )
            &&& c.metrics[1].value == PieceView::Text(
                text::dec((config.pools.len() + slabs.len()) as nat),
            )
            &&& c.metrics[2].value == PieceView::Text(
                text::dec(
                    names::sorted(fed.volumes.dom()).len() + sum(
                        keys.map_values(|n: Seq<char>| inv[n].volumes.len()),
                    ),
                ),
            )
            &&& c.metrics[3].value == PieceView::Bytes(free as u64)
        }),
{
    let nodes = names::in_order(fed.nodes);
    let keys = names::sorted(inv.dom());
    api_laws::healthy_are_counted(nodes);
    api::healthy_at_most_all(nodes);
    api_laws::healthy_are_summed(nodes, api::free_of());
    feed_slabs_are_chained(inv, keys);
    let c = components::system_summary(config, fed, inv);
    assert(c.relations[0].targets =~= names::sorted(fed.nodes.dom()).map_values(
        |n: Seq<char>| "node:"@ + n,
    ));
    assert(components::prefixed("pool:"@, components::pool_names(config.pools))
        =~= config.pools.map_values(|p: PoolConfigView| "pool:"@ + p.name));
    assert(c.relations[2].targets =~= inventory::rollups(inv).map_values(
        |t: TierRollupView| "tier:"@ + t.tier,
    ));
}

/// What the feed holds, in this order: the system, every configured pool, every
/// tier, every node followed by its slabs where they are known, every
/// distributed volume, and every volume on every engine.
pub proof fn feed_holds_everything_once(
    config: ConfigView,
    fed: FedStateView,
    inv: Map<Seq<char>, NodeInventoryView>,
)
    ensures
        components::feed(config, fed, inv) == seq![components::system_summary(config, fed, inv)]
            + config.pools.map_values(|p: PoolConfigView| components::pool_summary(p, fed))
            + inventory::rollups(inv).map_values(|t: TierRollupView| components::tier_summary(t))
            + chained(
            names::in_order(fed.nodes).map_values(|n: NodeView| node_and_slabs(inv, n)),
        ) + names::in_order(fed.volumes).map_values(
            |v: DistVolumeView| components::volume_summary(v),
        ) + chained(
            names::sorted(inv.dom()).map_values(
                |k: Seq<char>|
                    inv[k].volumes.map_values(
                        |v: PlacedVolumeView| components::node_volume_summary(k, v),
                    ),
            ),
        ),
{
    nodes_are_chained(names::in_order(fed.nodes), inv);
    engines_are_chained(inv, names::sorted(inv.dom()));
    assert(components::pool_feed(config.pools, fed) =~= config.pools.map_values(
        |p: PoolConfigView| components::pool_summary(p, fed),
    ));
    assert(components::tier_feed(inventory::rollups(inv)) =~= inventory::rollups(inv).map_values(
        |t: TierRollupView| components::tier_summary(t),
    ));
    assert(components::volume_feed(names::in_order(fed.volumes)) =~= names::in_order(
        fed.volumes,
    ).map_values(|v: DistVolumeView| components::volume_summary(v)));
}

/// A node, and after it each slab that is known of it.
pub open spec fn node_and_slabs(
    inv: Map<Seq<char>, NodeInventoryView>,
    n: NodeView,
) -> Seq<ComponentSummaryView> {
    let name = n.config.name;
    if inv.contains_key(name) {
        seq![components::node_summary(n, Some(inv[name]))] + inv[name].slabs.map_values(
            |s: SlabView| components::slab_summary(n, inv[name], s),
        )
    } else {
        seq![components::node_summary(n, None)]
    }
}

proof fn nodes_are_chained(nodes: Seq<NodeView>, inv: Map<Seq<char>, NodeInventoryView>)
    ensures
        components::node_feed(nodes, inv) == chained(
            nodes.map_values(|n: NodeView| node_and_slabs(inv, n)),
        ),
    decreases nodes.len(),
{
    let f = |n: NodeView| node_and_slabs(inv, n);
    if nodes.len() > 0 {
        nodes_are_chained(nodes.drop_last(), inv);
        let n = nodes.last();
        let name = n.config.name;
        let before = components::node_feed(nodes.drop_last(), inv);
        assert(nodes.map_values(f).drop_last() =~= nodes.drop_last().map_values(f));
        if inv.contains_key(name) {
            assert(components::slab_feed(n, inv[name]) =~= inv[name].slabs.map_values(
                |s: SlabView| components::slab_summary(n, inv[name], s),
            ));
        }
        assert(components::node_feed(nodes, inv) =~= before + f(n));
    }
}

proof fn engines_are_chained(inv: Map<Seq<char>, NodeInventoryView>, keys: Seq<Seq<char>>)
    ensures
        components::engine_feed(inv, keys) == chained(
            keys.map_values(
                |k: Seq<char>|
                    inv[k].volumes.map_values(
                        |v: PlacedVolumeView| components::node_volume_summary(k, v),
                    ),
            ),
        ),
    decreases keys.len(),
{
    let f = |k: Seq<char>|
        inv[k].volumes.map_values(|v: PlacedVolumeView| components::node_volume_summary(k, v));
    if keys.len() > 0 {
        engines_are_chained(inv, keys.drop_last());
        let k = keys.last();
        assert(keys.map_values(f).drop_last() =~= keys.drop_last().map_values(f));
        assert(components::node_volume_feed(k, inv[k]) =~= f(k));
    }
}

/// The feed can be counted exactly where the tiers can, and the free bytes of
/// the healthy nodes, the volumes and the pools fit the numbers that hold them.
pub proof fn feed_is_counted_where_it_fits(
    config: ConfigView,
    fed: FedStateView,
    inv: Map<Seq<char>, NodeInventoryView>,
)
    ensures
        ({
            let keys = names::sorted(inv.dom());
            components::feed_fits(config, fed, inv) <==> {
                &&& inventory::tiers_fit(inv)
                &&& sum(
                    kept(
                        names::in_order(fed.nodes),
                        |n: NodeView| n.status.healthy,
                        |n: NodeView| n.status.free_bytes as nat,
                    ),
                ) <= u64::MAX
                &&& names::sorted(fed.volumes.dom()).len() + sum(
                    keys.map_values(|n: Seq<char>| inv[n].volumes.len()),
                ) <= usize::MAX
                &&& config.pools.len() + chained(
                    keys.map_values(
                        |n: Seq<char>|
                            inv[n].slabs.map_values(|s: SlabView| "pool:"@ + n + "/"@ + s.id),
                    ),
                ).len() <= usize::MAX
            }
        }),
{
    api_laws::healthy_are_summed(names::in_order(fed.nodes), api::free_of());
    feed_slabs_are_chained(inv, names::sorted(inv.dom()));
}

} // verus!
