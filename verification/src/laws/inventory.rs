//! On which slabs volumes are, and what the tiers add up to.

use crate::inventory;
use crate::inventory::{
    EngineVolumeView, NodeInventoryView, PlacedBy, PlacedVolumeView, SlabView, SlotOwners,
    TierRollupView,
};
use crate::laws::lists;
use crate::laws::lists::{chained, kept, sum};
use crate::names;
use vstd::prelude::*;

verus! {

/// Whether the volume has a slot on some slab.
pub open spec fn has_slots(owners: SlotOwners, id: Seq<char>) -> bool {
    owners.contains_key(id) && exists|s: Seq<char>| #[trigger] owners[id].contains(s)
}

/// The ancestor `k` generations above the one that is first.
pub open spec fn forebear(
    volumes: Seq<EngineVolumeView>,
    first: Option<Seq<char>>,
    k: nat,
) -> Option<Seq<char>>
    decreases k,
{
    if k == 0 {
        first
    } else {
        match forebear(volumes, first, (k - 1) as nat) {
            Some(id) => inventory::parent_of(volumes, id),
            None => None,
        }
    }
}

proof fn has_slots_is_owning(owners: SlotOwners, id: Seq<char>)
    ensures
        has_slots(owners, id) == inventory::owns_slots(owners, id),
{
    if owners.contains_key(id) && !has_slots(owners, id) {
        assert(owners[id] =~= Set::<Seq<char>>::empty());
    }
}

proof fn forebear_of_parent(
    volumes: Seq<EngineVolumeView>,
    id: Seq<char>,
    k: nat,
)
    ensures
        forebear(volumes, Some(id), k + 1) == forebear(
            volumes,
            inventory::parent_of(volumes, id),
            k,
        ),
    decreases k,
{
    if k > 0 {
        forebear_of_parent(volumes, id, (k - 1) as nat);
    } else {
        assert(forebear(volumes, Some(id), 0) == Some(id));
    }
}

proof fn nearest_is_found(
    volumes: Seq<EngineVolumeView>,
    owners: SlotOwners,
    first: Option<Seq<char>>,
    steps: nat,
    k: nat,
)
    requires
        k < steps,
        forebear(volumes, first, k) matches Some(a) && has_slots(owners, a),
        forall|j: nat|
            j < k ==> !(#[trigger] forebear(volumes, first, j) matches Some(b) && has_slots(
                owners,
                b,
            )),
    ensures
        inventory::slot_ancestor(volumes, owners, first, steps) == forebear(volumes, first, k),
    decreases steps,
{
    assert(forebear(volumes, first, 0) == first);
    if first is None {
        no_forebears(volumes, k);
    } else {
        has_slots_is_owning(owners, first->0);
        if k > 0 {
            let id = first->0;
            let parent = inventory::parent_of(volumes, id);
            assert(!has_slots(owners, id));
            forebear_of_parent(volumes, id, (k - 1) as nat);
            assert forall|j: nat| j < k - 1 implies !(#[trigger] forebear(volumes, parent, j)
                matches Some(b) && has_slots(owners, b)) by {
                forebear_of_parent(volumes, id, j);
                assert(!(forebear(volumes, first, j + 1) matches Some(b) && has_slots(owners, b)));
            }
            nearest_is_found(volumes, owners, parent, (steps - 1) as nat, (k - 1) as nat);
        }
    }
}

proof fn no_forebears(volumes: Seq<EngineVolumeView>, k: nat)
    ensures
        forebear(volumes, None, k) is None,
    decreases k,
{
    if k > 0 {
        no_forebears(volumes, (k - 1) as nat);
    }
}

proof fn none_is_found(
    volumes: Seq<EngineVolumeView>,
    owners: SlotOwners,
    first: Option<Seq<char>>,
    steps: nat,
)
    requires
        forall|j: nat|
            j < steps ==> !(#[trigger] forebear(volumes, first, j) matches Some(b) && has_slots(
                owners,
                b,
            )),
    ensures
        inventory::slot_ancestor(volumes, owners, first, steps) is None,
    decreases steps,
{
    assert(forebear(volumes, first, 0) == first);
    if first is Some && steps > 0 {
        let id = first->0;
        let parent = inventory::parent_of(volumes, id);
        has_slots_is_owning(owners, id);
        assert(!has_slots(owners, id));
        assert forall|j: nat| j < steps - 1 implies !(#[trigger] forebear(volumes, parent, j)
            matches Some(b) && has_slots(owners, b)) by {
            forebear_of_parent(volumes, id, j);
            assert(!(forebear(volumes, first, j + 1) matches Some(b) && has_slots(owners, b)));
        }
        none_is_found(volumes, owners, parent, (steps - 1) as nat);
    }
}

/// A volume is placed in the place it has in the list, as the engine reports
/// it.
pub proof fn every_volume_is_placed(
    slabs: Seq<SlabView>,
    volumes: Seq<EngineVolumeView>,
    owners: SlotOwners,
    i: int,
)
    requires
        0 <= i < volumes.len(),
    ensures
        inventory::placed(slabs, volumes, owners).len() == volumes.len(),
        inventory::placed(slabs, volumes, owners)[i].volume == volumes[i],
{
}

/// A volume that has slots is on exactly the slabs with its slots, in order.
pub proof fn own_slots_place_a_volume(
    slabs: Seq<SlabView>,
    volumes: Seq<EngineVolumeView>,
    owners: SlotOwners,
    i: int,
)
    requires
        0 <= i < volumes.len(),
        owners.contains_key(volumes[i].id) ==> owners[volumes[i].id].finite(),
    ensures
        ({
            let p = inventory::placed(slabs, volumes, owners)[i];
            &&& p.placed_by == PlacedBy::Slots <==> has_slots(owners, volumes[i].id)
            &&& p.placed_by == PlacedBy::Slots ==> names::ascending(p.slabs) && p.slabs.to_set()
                == owners[volumes[i].id]
        }),
{
    has_slots_is_owning(owners, volumes[i].id);
    if has_slots(owners, volumes[i].id) {
        names::sorted_holds(owners[volumes[i].id]);
    }
}

/// A volume without slots is on the slabs of its nearest ancestor that has
/// slots: where the `k`th ancestor of its parent has some, and no ancestor
/// before that one has any, it is on exactly that one's slabs.
pub proof fn nearest_ancestor_places_a_volume(
    slabs: Seq<SlabView>,
    volumes: Seq<EngineVolumeView>,
    owners: SlotOwners,
    i: int,
    k: nat,
)
    requires
        0 <= i < volumes.len(),
        !has_slots(owners, volumes[i].id),
        k < 64,
        forebear(volumes, volumes[i].parent, k) is Some,
        has_slots(owners, forebear(volumes, volumes[i].parent, k)->0),
        owners[forebear(volumes, volumes[i].parent, k)->0].finite(),
        forall|j: nat|
            j < k ==> !(#[trigger] forebear(volumes, volumes[i].parent, j) matches Some(b)
                && has_slots(owners, b)),
    ensures
        ({
            let p = inventory::placed(slabs, volumes, owners)[i];
            &&& p.placed_by == PlacedBy::Parent
            &&& names::ascending(p.slabs)
            &&& p.slabs.to_set() == owners[forebear(volumes, volumes[i].parent, k)->0]
        }),
{
    let a = forebear(volumes, volumes[i].parent, k)->0;
    has_slots_is_owning(owners, volumes[i].id);
    nearest_is_found(volumes, owners, volumes[i].parent, 64, k);
    names::sorted_holds(owners[a]);
}

/// A volume without slots whose parent has slots is on exactly the parent's
/// slabs, whatever the ancestors above have.
pub proof fn parent_with_slots_places_a_volume(
    slabs: Seq<SlabView>,
    volumes: Seq<EngineVolumeView>,
    owners: SlotOwners,
    i: int,
    parent: Seq<char>,
)
    requires
        0 <= i < volumes.len(),
        !has_slots(owners, volumes[i].id),
        volumes[i].parent == Some(parent),
        has_slots(owners, parent),
        owners[parent].finite(),
    ensures
        ({
            let p = inventory::placed(slabs, volumes, owners)[i];
            &&& p.placed_by == PlacedBy::Parent
            &&& names::ascending(p.slabs)
            &&& p.slabs.to_set() == owners[parent]
        }),
{
    assert(forebear(volumes, volumes[i].parent, 0) == Some(parent));
    nearest_ancestor_places_a_volume(slabs, volumes, owners, i, 0);
}

/// Where a volume is placed by an ancestor, it has no slots itself, and there is
/// a nearest one among the 64 that are looked at.
pub proof fn placed_by_parent_means_a_nearest_one(
    slabs: Seq<SlabView>,
    volumes: Seq<EngineVolumeView>,
    owners: SlotOwners,
    i: int,
) -> (k: nat)
    requires
        0 <= i < volumes.len(),
        inventory::placed(slabs, volumes, owners)[i].placed_by == PlacedBy::Parent,
    ensures
        k < 64,
        !has_slots(owners, volumes[i].id),
        forebear(volumes, volumes[i].parent, k) is Some,
        has_slots(owners, forebear(volumes, volumes[i].parent, k)->0),
        forall|j: nat|
            j < k ==> !(#[trigger] forebear(volumes, volumes[i].parent, j) matches Some(b)
                && has_slots(owners, b)),
        inventory::placed(slabs, volumes, owners)[i].slabs == names::sorted(
            owners[forebear(volumes, volumes[i].parent, k)->0],
        ),
{
    let first = volumes[i].parent;
    has_slots_is_owning(owners, volumes[i].id);
    if forall|j: nat|
        j < 64 ==> !(#[trigger] forebear(volumes, first, j) matches Some(b) && has_slots(
            owners,
            b,
        )) {
        none_is_found(volumes, owners, first, 64);
        assert(false);
        0
    } else {
        let j = choose|j: nat|
            j < 64 && (#[trigger] forebear(volumes, first, j) matches Some(b) && has_slots(
                owners,
                b,
            ));
        let k = nearest(volumes, owners, first, j);
        nearest_is_found(volumes, owners, first, 64, k);
        k
    }
}

proof fn nearest(
    volumes: Seq<EngineVolumeView>,
    owners: SlotOwners,
    first: Option<Seq<char>>,
    j: nat,
) -> (k: nat)
    requires
        forebear(volumes, first, j) matches Some(b) && has_slots(owners, b),
    ensures
        k <= j,
        forebear(volumes, first, k) matches Some(b) && has_slots(owners, b),
        forall|i: nat|
            i < k ==> !(#[trigger] forebear(volumes, first, i) matches Some(b) && has_slots(
                owners,
                b,
            )),
    decreases j,
{
    if exists|i: nat|
        i < j && (#[trigger] forebear(volumes, first, i) matches Some(b) && has_slots(owners, b)) {
        let i = choose|i: nat|
            i < j && (#[trigger] forebear(volumes, first, i) matches Some(b) && has_slots(
                owners,
                b,
            ));
        nearest(volumes, owners, first, i)
    } else {
        j
    }
}

/// A volume for which no slots tell is on the one slab of its role, where it
/// has a role and exactly one slab has it; otherwise on none.
pub proof fn role_places_a_volume(
    slabs: Seq<SlabView>,
    volumes: Seq<EngineVolumeView>,
    owners: SlotOwners,
    i: int,
)
    requires
        0 <= i < volumes.len(),
        !has_slots(owners, volumes[i].id),
        forall|j: nat|
            j < 64 ==> !(#[trigger] forebear(volumes, volumes[i].parent, j) matches Some(b)
                && has_slots(owners, b)),
    ensures
        ({
            let p = inventory::placed(slabs, volumes, owners)[i];
            let same = kept(
                slabs,
                |s: SlabView| s.role == volumes[i].role,
                |s: SlabView| s.id,
            );
            if volumes[i].role.len() > 0 && same.len() == 1 {
                p.placed_by == PlacedBy::Role && p.slabs == same
            } else {
                p.placed_by == PlacedBy::Unknown && p.slabs.len() == 0
            }
        }),
{
    has_slots_is_owning(owners, volumes[i].id);
    none_is_found(volumes, owners, volumes[i].parent, 64);
    let role = volumes[i].role;
    let same = kept(slabs, |s: SlabView| s.role == role, |s: SlabView| s.id);
    slabs_of_role_are_kept(slabs, role);
    assert(same.len() == inventory::slabs_of_role(slabs, role).len());
    if role.len() > 0 && same.len() == 1 {
        assert(inventory::placed(slabs, volumes, owners)[i].slabs =~= same);
    }
}

proof fn slabs_of_role_are_kept(slabs: Seq<SlabView>, role: Seq<char>)
    ensures
        kept(slabs, |s: SlabView| s.role == role, |s: SlabView| s.id)
            == inventory::slabs_of_role(slabs, role).map_values(|s: SlabView| s.id),
    decreases slabs.len(),
{
    let p = |s: SlabView| s.role == role;
    let f = |s: SlabView| s.id;
    let all = inventory::slabs_of_role(slabs, role).map_values(f);
    if slabs.len() == 0 {
        lists::kept_of_none(slabs, p, f);
        assert(all =~= kept(slabs, p, f));
    } else {
        slabs_of_role_are_kept(slabs.drop_last(), role);
        lists::kept_of_more(slabs, p, f);
        assert(all =~= kept(slabs, p, f));
    }
}

/// A volume's parent is what the engine says of it: of volumes with one id the
/// last one speaks, and a volume that is not listed has none.
pub proof fn parent_is_that_of_the_last_listed(
    volumes: Seq<EngineVolumeView>,
    id: Seq<char>,
    k: int,
)
    requires
        -1 <= k < volumes.len(),
        k >= 0 ==> volumes[k].id == id,
        forall|j: int| k < j < volumes.len() ==> (#[trigger] volumes[j]).id != id,
    ensures
        inventory::parent_of(volumes, id) == if k >= 0 {
            volumes[k].parent
        } else {
            None
        },
    decreases volumes.len(),
{
    if volumes.len() > 0 && k < volumes.len() - 1 {
        let front = volumes.drop_last();
        assert(volumes[volumes.len() - 1].id != id);
        assert forall|j: int| k < j < front.len() implies (#[trigger] front[j]).id != id by {
            assert(volumes[j].id != id);
        }
        parent_is_that_of_the_last_listed(front, id, k);
    }
}

/// Whether a volume is on a slab of the tier: one of its slabs is the first of
/// that id on the node, and of the tier.
pub open spec fn touches_tier(v: PlacedVolumeView, slabs: Seq<SlabView>, tier: Seq<char>) -> bool {
    exists|k: int, j: int|
        0 <= k < v.slabs.len() && 0 <= j < slabs.len() && (#[trigger] slabs[j]).id
            == #[trigger] v.slabs[k] && slabs[j].tier == tier && forall|h: int|
            0 <= h < j ==> (#[trigger] slabs[h]).id != v.slabs[k]
}

proof fn first_slab_with_id(slabs: Seq<SlabView>, id: Seq<char>, j: int)
    requires
        0 <= j < slabs.len(),
        slabs[j].id == id,
        forall|h: int| 0 <= h < j ==> (#[trigger] slabs[h]).id != id,
    ensures
        inventory::slab_by_id(slabs, id) == Some(slabs[j]),
    decreases slabs.len(),
{
    if j > 0 {
        let rest = slabs.drop_first();
        assert(slabs[0].id != id);
        assert forall|h: int| 0 <= h < j - 1 implies (#[trigger] rest[h]).id != id by {
            assert(slabs[h + 1].id != id);
        }
        first_slab_with_id(rest, id, j - 1);
    }
}

proof fn found_slab_is_first(slabs: Seq<SlabView>, id: Seq<char>) -> (j: int)
    requires
        inventory::slab_by_id(slabs, id) is Some,
    ensures
        0 <= j < slabs.len(),
        slabs[j].id == id,
        inventory::slab_by_id(slabs, id) == Some(slabs[j]),
        forall|h: int| 0 <= h < j ==> (#[trigger] slabs[h]).id != id,
    decreases slabs.len(),
{
    if slabs[0].id == id {
        0
    } else {
        let rest = slabs.drop_first();
        let j = found_slab_is_first(rest, id);
        assert forall|h: int| 0 <= h < j + 1 implies (#[trigger] slabs[h]).id != id by {
            if h > 0 {
                assert(rest[h - 1].id != id);
            }
        }
        j + 1
    }
}

proof fn touching_is_being_on(v: PlacedVolumeView, slabs: Seq<SlabView>, tier: Seq<char>)
    ensures
        inventory::on_tier(v, slabs, tier) == touches_tier(v, slabs, tier),
{
    if inventory::on_tier(v, slabs, tier) {
        let k = choose|k: int|
            0 <= k < v.slabs.len() && (inventory::slab_by_id(slabs, #[trigger] v.slabs[k])
                matches Some(s) && s.tier == tier);
        let j = found_slab_is_first(slabs, v.slabs[k]);
        assert(slabs[j].id == v.slabs[k]);
    }
    if touches_tier(v, slabs, tier) {
        let (k, j) = choose|k: int, j: int|
            0 <= k < v.slabs.len() && 0 <= j < slabs.len() && (#[trigger] slabs[j]).id
                == #[trigger] v.slabs[k] && slabs[j].tier == tier && forall|h: int|
                0 <= h < j ==> (#[trigger] slabs[h]).id != v.slabs[k];
        first_slab_with_id(slabs, v.slabs[k], j);
        assert(inventory::slab_by_id(slabs, v.slabs[k]) == Some(slabs[j]));
    }
}

/// The ids of the volumes that a node has on the tier.
pub open spec fn ids_on_tier(inv: NodeInventoryView, tier: Seq<char>) -> Set<Seq<char>> {
    Set::new(
        |id: Seq<char>|
            exists|i: int|
                0 <= i < inv.volumes.len() && (#[trigger] inv.volumes[i]).volume.id == id
                    && touches_tier(inv.volumes[i], inv.slabs, tier),
    )
}

/// A figure of each slab of the tier on a node.
pub open spec fn figures(
    inv: NodeInventoryView,
    tier: Seq<char>,
    figure: spec_fn(SlabView) -> nat,
) -> Seq<nat> {
    kept(inv.slabs, |s: SlabView| s.tier == tier, figure)
}

/// The slabs of the tier on a node, as node and slab.
pub open spec fn slabs_on(node: Seq<char>, inv: NodeInventoryView, tier: Seq<char>) -> Seq<
    Seq<char>,
> {
    kept(inv.slabs, |s: SlabView| s.tier == tier, |s: SlabView| node + "/"@ + s.id)
}

proof fn node_sum_is_sum(slabs: Seq<SlabView>, tier: Seq<char>, figure: spec_fn(SlabView) -> nat)
    ensures
        inventory::node_sum(slabs, tier, figure) == sum(
            kept(slabs, |s: SlabView| s.tier == tier, figure),
        ),
    decreases slabs.len(),
{
    let p = |s: SlabView| s.tier == tier;
    if slabs.len() == 0 {
        lists::kept_of_none(slabs, p, figure);
    } else {
        let before = kept(slabs.drop_last(), p, figure);
        node_sum_is_sum(slabs.drop_last(), tier, figure);
        lists::kept_of_more(slabs, p, figure);
        if p(slabs.last()) {
            assert(before.push(figure(slabs.last())).drop_last() =~= before);
        }
    }
}

proof fn all_sum_is_sum(
    all: Map<Seq<char>, NodeInventoryView>,
    nodes: Seq<Seq<char>>,
    tier: Seq<char>,
    figure: spec_fn(SlabView) -> nat,
)
    ensures
        inventory::all_sum(all, nodes, tier, figure) == sum(
            nodes.map_values(|n: Seq<char>| sum(figures(all[n], tier, figure))),
        ),
    decreases nodes.len(),
{
    let f = |n: Seq<char>| sum(figures(all[n], tier, figure));
    if nodes.len() > 0 {
        all_sum_is_sum(all, nodes.drop_last(), tier, figure);
        node_sum_is_sum(all[nodes.last()].slabs, tier, figure);
        assert(nodes.map_values(f).drop_last() =~= nodes.drop_last().map_values(f));
    }
}

proof fn node_slabs_are_kept(node: Seq<char>, slabs: Seq<SlabView>, tier: Seq<char>)
    ensures
        inventory::node_slabs(node, slabs, tier) == kept(
            slabs,
            |s: SlabView| s.tier == tier,
            |s: SlabView| node + "/"@ + s.id,
        ),
    decreases slabs.len(),
{
    let p = |s: SlabView| s.tier == tier;
    let f = |s: SlabView| node + "/"@ + s.id;
    if slabs.len() == 0 {
        lists::kept_of_none(slabs, p, f);
    } else {
        node_slabs_are_kept(node, slabs.drop_last(), tier);
        lists::kept_of_more(slabs, p, f);
    }
}

proof fn all_slabs_are_chained(
    all: Map<Seq<char>, NodeInventoryView>,
    nodes: Seq<Seq<char>>,
    tier: Seq<char>,
)
    ensures
        inventory::all_slabs(all, nodes, tier) == chained(
            nodes.map_values(|n: Seq<char>| slabs_on(n, all[n], tier)),
        ),
    decreases nodes.len(),
{
    let f = |n: Seq<char>| slabs_on(n, all[n], tier);
    if nodes.len() > 0 {
        all_slabs_are_chained(all, nodes.drop_last(), tier);
        node_slabs_are_kept(nodes.last(), all[nodes.last()].slabs, tier);
        assert(nodes.map_values(f).drop_last() =~= nodes.drop_last().map_values(f));
    }
}

proof fn nodes_with_are_kept(
    all: Map<Seq<char>, NodeInventoryView>,
    nodes: Seq<Seq<char>>,
    tier: Seq<char>,
)
    ensures
        inventory::nodes_with(all, nodes, tier) == nodes.filter(
            |n: Seq<char>|
                exists|i: int| 0 <= i < all[n].slabs.len() && (#[trigger] all[n].slabs[i]).tier
                    == tier,
        ),
    decreases nodes.len(),
{
    reveal(Seq::filter);
    let p = |n: Seq<char>|
        exists|i: int| 0 <= i < all[n].slabs.len() && (#[trigger] all[n].slabs[i]).tier == tier;
    if nodes.len() > 0 {
        nodes_with_are_kept(all, nodes.drop_last(), tier);
        let n = nodes.last();
        let q = |s: SlabView| s.tier == tier;
        let f = |s: SlabView| n + "/"@ + s.id;
        node_slabs_are_kept(n, all[n].slabs, tier);
        if p(n) {
            let i = choose|i: int|
                0 <= i < all[n].slabs.len() && (#[trigger] all[n].slabs[i]).tier == tier;
            lists::kept_holds(all[n].slabs, q, f, i);
        }
        if kept(all[n].slabs, q, f).len() > 0 {
            let i = lists::kept_comes_from(all[n].slabs, q, f, 0);
            assert(all[n].slabs[i].tier == tier);
        }
    }
}

proof fn all_volumes_is_sum(
    all: Map<Seq<char>, NodeInventoryView>,
    nodes: Seq<Seq<char>>,
    tier: Seq<char>,
)
    ensures
        inventory::all_volumes(all, nodes, tier) == sum(
            nodes.map_values(|n: Seq<char>| ids_on_tier(all[n], tier).len()),
        ),
    decreases nodes.len(),
{
    let f = |n: Seq<char>| ids_on_tier(all[n], tier).len();
    if nodes.len() > 0 {
        all_volumes_is_sum(all, nodes.drop_last(), tier);
        let inv = all[nodes.last()];
        assert(nodes.map_values(f).drop_last() =~= nodes.drop_last().map_values(f));
        assert forall|id: Seq<char>| inventory::tier_volumes(inv, tier).contains(id) == ids_on_tier(
            inv,
            tier,
        ).contains(id) by {
            assert forall|i: int| 0 <= i < inv.volumes.len() implies inventory::on_tier(
                #[trigger] inv.volumes[i],
                inv.slabs,
                tier,
            ) == touches_tier(inv.volumes[i], inv.slabs, tier) by {
                touching_is_being_on(inv.volumes[i], inv.slabs, tier);
            }
        }
        assert(inventory::tier_volumes(inv, tier) =~= ids_on_tier(inv, tier));
    }
}

/// The tiers are those that some slab of some node has, each with one roll-up,
/// in the order of their names.
pub proof fn every_tier_is_rolled_up_once(all: Map<Seq<char>, NodeInventoryView>)
    requires
        all.dom().finite(),
    ensures
        ({
            let tiers = inventory::rollups(all).map_values(|t: TierRollupView| t.tier);
            &&& names::ascending(tiers)
            &&& forall|t: Seq<char>| #[trigger]
                tiers.contains(t) <==> exists|n: Seq<char>, i: int|
                    all.contains_key(n) && 0 <= i < all[n].slabs.len() && (
                    #[trigger] all[n].slabs[i]).tier == t
        }),
{
    let tiers = inventory::rollups(all).map_values(|t: TierRollupView| t.tier);
    let wanted = names::sorted(inventory::tier_names(all));
    inventory::tiers_are_finite(all);
    names::sorted_holds(inventory::tier_names(all));
    assert(tiers =~= wanted);
    assert forall|t: Seq<char>| #[trigger] tiers.contains(t) == inventory::tier_names(all).contains(
        t,
    ) by {
        assert(wanted.to_set().contains(t) == wanted.contains(t));
    }
}

/// What the roll-up of a tier says: it lists the slabs of the tier, node by
/// node, and the nodes that have one, and adds up the capacity, the free and the
/// allocated bytes of exactly those slabs and the volumes on them, each volume
/// of a node once.
pub proof fn rollup_adds_up_the_slabs_of_the_tier(
    all: Map<Seq<char>, NodeInventoryView>,
    i: int,
)
    requires
        all.dom().finite(),
        0 <= i < inventory::rollups(all).len(),
        inventory::tiers_fit(all),
    ensures
        ({
            let t = inventory::rollups(all)[i];
            let tier = t.tier;
            let nodes = names::sorted(all.dom());
            &&& t.slabs == chained(nodes.map_values(|n: Seq<char>| slabs_on(n, all[n], tier)))
            &&& t.nodes == nodes.filter(
                |n: Seq<char>|
                    exists|i: int| 0 <= i < all[n].slabs.len() && (#[trigger] all[n].slabs[i]).tier
                        == tier,
            )
            &&& t.total_bytes == sum(
                nodes.map_values(
                    |n: Seq<char>|
                        sum(figures(all[n], tier, |s: SlabView| s.total_bytes as nat)),
                ),
            )
            &&& t.free_bytes == sum(
                nodes.map_values(
                    |n: Seq<char>| sum(figures(all[n], tier, |s: SlabView| s.free_bytes as nat)),
                ),
            )
            &&& t.allocated_bytes == sum(
                nodes.map_values(
                    |n: Seq<char>|
                        sum(figures(all[n], tier, |s: SlabView| s.allocated_bytes() as nat)),
                ),
            )
            &&& t.volumes == sum(nodes.map_values(|n: Seq<char>| ids_on_tier(all[n], tier).len()))
        }),
{
    let nodes = names::sorted(all.dom());
    let tier = inventory::rollups(all)[i].tier;
    let tiers = names::sorted(inventory::tier_names(all));
    inventory::tiers_are_finite(all);
    names::sorted_holds(inventory::tier_names(all));
    assert(tiers.to_set().contains(tiers[i]));
    assert(inventory::tier_names(all).contains(tier));
    assert(inventory::tier_fits(all, tier));
    all_slabs_are_chained(all, nodes, tier);
    nodes_with_are_kept(all, nodes, tier);
    all_sum_is_sum(all, nodes, tier, inventory::total_of());
    all_sum_is_sum(all, nodes, tier, inventory::free_of());
    all_sum_is_sum(all, nodes, tier, inventory::allocated_of());
    all_volumes_is_sum(all, nodes, tier);
}

/// What a slab has allocated is its allocated slots times their size, as far as
/// that can be counted.
pub proof fn allocated_bytes_are_slots_times_size(s: SlabView)
    ensures
        s.allocated_slots * s.slot_size <= u64::MAX ==> s.allocated_bytes() == s.allocated_slots
            * s.slot_size,
        s.allocated_slots * s.slot_size > u64::MAX ==> s.allocated_bytes() == u64::MAX,
{
}

/// A volume is listed for a slab exactly where it is on that slab.
pub proof fn slab_lists_its_volumes(
    volumes: Seq<PlacedVolumeView>,
    slab: Seq<char>,
    v: PlacedVolumeView,
)
    ensures
        inventory::on_slab(volumes, slab).contains(v) <==> volumes.contains(v) && v.slabs.contains(
            slab,
        ),
{
    let p = |v: PlacedVolumeView| v.slabs.contains(slab);
    let f = |v: PlacedVolumeView| v;
    assert(kept(volumes, p, f) =~= inventory::on_slab(volumes, slab));
    if inventory::on_slab(volumes, slab).contains(v) {
        let k = inventory::on_slab(volumes, slab).index_of(v);
        let i = lists::kept_comes_from(volumes, p, f, k);
        assert(volumes[i] == v);
    }
    if volumes.contains(v) && v.slabs.contains(slab) {
        lists::kept_holds(volumes, p, f, volumes.index_of(v));
    }
}

/// What owns a volume is told by its kind, its namespace where it has one, and
/// its name.
pub proof fn owner_is_described(o: inventory::OwnerView)
    ensures
        o.namespace.len() == 0 ==> o.describe() == o.kind + " "@ + o.name,
        o.namespace.len() > 0 ==> o.describe() == o.kind + " "@ + o.namespace + "/"@ + o.name,
{
}

/// A tier can be counted exactly where its sums fit the numbers that hold them.
pub proof fn tier_is_counted_where_it_fits(
    all: Map<Seq<char>, NodeInventoryView>,
    tier: Seq<char>,
)
    ensures
        ({
            let nodes = names::sorted(all.dom());
            let total = |s: SlabView| s.total_bytes as nat;
            let free = |s: SlabView| s.free_bytes as nat;
            let used = |s: SlabView| s.allocated_bytes() as nat;
            inventory::tier_fits(all, tier) <==> {
                &&& sum(nodes.map_values(|n: Seq<char>| sum(figures(all[n], tier, total))))
                    <= u64::MAX
                &&& sum(nodes.map_values(|n: Seq<char>| sum(figures(all[n], tier, free))))
                    <= u64::MAX
                &&& sum(nodes.map_values(|n: Seq<char>| sum(figures(all[n], tier, used))))
                    <= u64::MAX
                &&& sum(nodes.map_values(|n: Seq<char>| ids_on_tier(all[n], tier).len()))
                    <= usize::MAX
            }
        }),
{
    let nodes = names::sorted(all.dom());
    all_sum_is_sum(all, nodes, tier, inventory::total_of());
    all_sum_is_sum(all, nodes, tier, inventory::free_of());
    all_sum_is_sum(all, nodes, tier, inventory::allocated_of());
    all_volumes_is_sum(all, nodes, tier);
}

/// The tiers can be counted exactly where each of them can.
pub proof fn tiers_are_counted_where_they_fit(all: Map<Seq<char>, NodeInventoryView>)
    ensures
        inventory::tiers_fit(all) <==> forall|n: Seq<char>, i: int|
            all.contains_key(n) && 0 <= i < all[n].slabs.len() ==> inventory::tier_fits(
                all,
                (#[trigger] all[n].slabs[i]).tier,
            ),
{
    if inventory::tiers_fit(all) {
        assert forall|n: Seq<char>, i: int|
            all.contains_key(n) && 0 <= i < all[n].slabs.len() implies inventory::tier_fits(
            all,
            (#[trigger] all[n].slabs[i]).tier,
        ) by {
            assert(inventory::tier_names(all).contains(all[n].slabs[i].tier));
        }
    }
    if forall|n: Seq<char>, i: int|
        all.contains_key(n) && 0 <= i < all[n].slabs.len() ==> inventory::tier_fits(
            all,
            (#[trigger] all[n].slabs[i]).tier,
        ) {
        assert forall|t: Seq<char>| #[trigger]
            inventory::tier_names(all).contains(t) implies inventory::tier_fits(all, t) by {
            let (n, i) = choose|n: Seq<char>, i: int|
                all.contains_key(n) && 0 <= i < all[n].slabs.len() && (
                #[trigger] all[n].slabs[i]).tier == t;
            assert(all[n].slabs[i].tier == t);
        }
    }
}

} // verus!
